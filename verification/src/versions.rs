//! Note versioning: append-only snapshots of a note's title and content,
//! numbered per note in creation order, and the revert operation that copies
//! a snapshot back over its note.

use vstd::prelude::*;

use crate::codec::{
    decode_note, decode_version, enc_note, enc_version, encode_note, encode_version,
    lemma_parse_note_enc, lemma_parse_version_enc,
};
use crate::engine::{counter_get, counter_set, region_bytes, region_get, region_insert, region_remove};
use crate::store::{
    note_result_matches, unit_result_matches, versions_listed, view_wf, Store, StoreView,
};
use crate::types::{
    kind_of, ErrKind, Error, Note, NoteVersion, NoteVersionPayload, NoteVersionView, NoteView,
    MAX_RECORD_SIZE,
};

verus! {

/// The keys of the versions that snapshot `note_id`.
pub open spec fn version_keys_for(m: Map<u64, NoteVersionView>, note_id: u64) -> Set<u64> {
    m.dom().filter(|k: u64| m[k].note_id == note_id)
}

/// How many versions snapshot `note_id`.
pub open spec fn version_count(m: Map<u64, NoteVersionView>, note_id: u64) -> nat {
    version_keys_for(m, note_id).len()
}

/// The executable version result reports exactly the transition's outcome.
pub open spec fn version_result_matches(
    r: Result<NoteVersion, Error>,
    s: Result<NoteVersionView, ErrKind>,
) -> bool {
    match r {
        Ok(v) => s is Ok && s->Ok_0 == v@,
        Err(e) => s is Err && s->Err_0 == kind_of(e),
    }
}

// ---------------------------------------------------------------------------
// Specification transitions for the version repository
// ---------------------------------------------------------------------------
/// Snapshotting a note: the new version gets the next identifier and, for
/// its note, the next version number — one more than the count of versions
/// that already snapshot it. The record must fit the size bound. Nothing
/// checks that the note itself exists, by design.
pub open spec fn spec_create_version(
    s: StoreView,
    note_id: u64,
    title: Seq<char>,
    content: Seq<char>,
    now: u64,
) -> (StoreView, Result<NoteVersionView, ErrKind>)
    recommends
        s.counter < u64::MAX,
        version_count(s.versions, note_id) + 1 <= u64::MAX,
{
    let v = NoteVersionView {
        id: (s.counter + 1) as u64,
        note_id: note_id,
        title: title,
        content: content,
        version_number: (version_count(s.versions, note_id) + 1) as u64,
        created_at: now,
    };
    if enc_version(v).len() > MAX_RECORD_SIZE {
        (s, Err(ErrKind::InvalidInput))
    } else {
        (
            StoreView {
                counter: v.id,
                notes: s.notes,
                tags: s.tags,
                versions: s.versions.insert(v.id, v),
            },
            Ok(v),
        )
    }
}

/// Looking a version up does not change the store.
pub open spec fn spec_get_version(s: StoreView, version_id: u64) -> Result<
    NoteVersionView,
    ErrKind,
> {
    if s.versions.dom().contains(version_id) {
        Ok(s.versions[version_id])
    } else {
        Err(ErrKind::NotFound)
    }
}

/// Deleting a version: it must exist; versions of other notes are untouched
/// and no version number is recomputed.
pub open spec fn spec_delete_version(s: StoreView, version_id: u64) -> (
    StoreView,
    Result<(), ErrKind>,
) {
    if !s.versions.dom().contains(version_id) {
        (s, Err(ErrKind::NotFound))
    } else {
        (
            StoreView {
                counter: s.counter,
                notes: s.notes,
                tags: s.tags,
                versions: s.versions.remove(version_id),
            },
            Ok(()),
        )
    }
}

/// Reverting a note to a version: the version must exist and belong to the
/// note, the note must exist, and the rewritten record must fit the size
/// bound. The note takes the version's title and content and a fresh update
/// time; its id, owner, creation time and tag list are kept. A failed revert
/// changes nothing.
pub open spec fn spec_revert(s: StoreView, note_id: u64, version_id: u64, now: u64) -> (
    StoreView,
    Result<NoteView, ErrKind>,
) {
    if !s.versions.dom().contains(version_id) {
        (s, Err(ErrKind::NotFound))
    } else {
        let v = s.versions[version_id];
        if v.note_id != note_id {
            (s, Err(ErrKind::VersionMismatch))
        } else if !s.notes.dom().contains(note_id) {
            (s, Err(ErrKind::NotFound))
        } else {
            let n = s.notes[note_id];
            let n2 = NoteView {
                id: n.id,
                owner: n.owner,
                title: v.title,
                content: v.content,
                created_at: n.created_at,
                updated_at: Some(now),
                tag_ids: n.tag_ids,
            };
            if enc_note(n2).len() > MAX_RECORD_SIZE {
                (s, Err(ErrKind::InvalidInput))
            } else {
                (
                    StoreView {
                        counter: s.counter,
                        notes: s.notes.insert(note_id, n2),
                        tags: s.tags,
                        versions: s.versions,
                    },
                    Ok(n2),
                )
            }
        }
    }
}

/// In a strictly ascending list of ids that are all at least one, the id at
/// each position is at least the position plus one.
proof fn lemma_version_ids_lower(out: Seq<NoteVersionView>)
    requires
        forall|a1: int, a2: int| 0 <= a1 < a2 < out.len() ==> out[a1].id < out[a2].id,
        forall|a: int| 0 <= a < out.len() ==> (#[trigger] out[a]).id >= 1,
    ensures
        forall|a: int| 0 <= a < out.len() ==> (#[trigger] out[a]).id >= a + 1,
    decreases out.len(),
{
    if out.len() > 0 {
        let prefix = out.drop_last();
        assert forall|a: int| 0 <= a < prefix.len() implies (#[trigger] prefix[a]) == out[a] by {}
        lemma_version_ids_lower(prefix);
        assert forall|a: int| 0 <= a < out.len() implies (#[trigger] out[a]).id >= a + 1 by {
            if a < out.len() - 1 {
                assert(prefix[a].id >= a + 1);
            } else if a > 0 {
                assert(prefix[a - 1].id >= a);
                assert(out[a - 1].id < out[a].id);
            }
        }
    }
}

// ---------------------------------------------------------------------------
// Version operations
// ---------------------------------------------------------------------------
impl Store {
    /// Snapshots `note_id` under a fresh identifier; for that note the
    /// snapshots are numbered one, two, three, … in creation order.
    pub fn create_note_version(&mut self, note_id: u64, payload: NoteVersionPayload, now: u64) -> (r:
        Result<NoteVersion, Error>)
        requires
            old(self)@.counter < u64::MAX,
        ensures
            ({
                let step = spec_create_version(
                    old(self)@,
                    note_id,
                    payload.title@,
                    payload.content@,
                    now,
                );
                &&& final(self)@ == step.0
                &&& version_result_matches(r, step.1)
            }),
            view_wf(final(self)@),
            r matches Err(e) ==> e.spec_message()
                == "version record exceeds the maximum encoded size"@,
    {
        proof {
            use_type_invariant(&*self);
            self.lemma_view_parts();
            self.lemma_view_wf();
        }
        let matching = self.filter_versions(
            |v: &NoteVersion| -> (b: bool) ensures b == (v@.note_id == note_id) {
                v.note_id == note_id
            },
            Ghost(|v: NoteVersionView| v.note_id == note_id),
        );
        let count = matching.len();
        proof {
            let m = self@.versions;
            let msq = matching@.map_values(|x: NoteVersion| x@);
            crate::store::lemma_versions_listed_count(
                m,
                |v: NoteVersionView| v.note_id == note_id,
                msq,
            );
            assert(m.dom().filter(
                |k: u64| (|v: NoteVersionView| v.note_id == note_id)(m[k]),
            ) =~= version_keys_for(m, note_id));
            assert forall|a: int| 0 <= a < msq.len() implies (#[trigger] msq[a]).id >= 1 by {
                assert(m.contains_pair(msq[a].id, msq[a]));
            }
            lemma_version_ids_lower(msq);
            if msq.len() > 0 {
                assert(m.contains_pair(msq[msq.len() - 1].id, msq[msq.len() - 1]));
                assert(msq[msq.len() - 1].id <= self@.counter);
            }
            assert(count <= self@.counter);
        }
        let version_number = count as u64 + 1;
        let id = counter_get(&self.counter) + 1;
        let version = NoteVersion {
            id,
            note_id,
            title: payload.title,
            content: payload.content,
            version_number,
            created_at: now,
        };
        let bytes = encode_version(&version);
        if bytes.len() > MAX_RECORD_SIZE {
            return Err(
                Error::InvalidInput {
                    msg: "version record exceeds the maximum encoded size".to_owned(),
                },
            );
        }
        counter_set(&mut self.counter, id);
        proof {
            lemma_parse_version_enc(version@);
        }
        let ghost old_version_bytes = region_bytes(self.versions);
        region_insert(&mut self.versions, id, bytes);
        proof {
            self.lemma_view_parts();
            crate::store::lemma_versions_view_insert(old_version_bytes, id, enc_version(version@));
            let step = spec_create_version(old(self)@, note_id, version@.title, version@.content, now);
            assert(version@ =~= step.1->Ok_0);
            assert(self@ =~= step.0);
            use_type_invariant(&*self);
            self.lemma_view_wf();
        }
        Ok(version)
    }

    /// Returns the version stored under `version_id`, or reports that there
    /// is none.
    pub fn get_note_version(&self, version_id: u64) -> (r: Result<NoteVersion, Error>)
        ensures
            version_result_matches(r, spec_get_version(self@, version_id)),
            r matches Err(e) ==> e.spec_message() == "Note version not found"@,
    {
        proof {
            use_type_invariant(&*self);
            self.lemma_view_parts();
        }
        match region_get(&self.versions, version_id) {
            Some(bytes) => {
                let v = decode_version(bytes.as_slice()).unwrap();
                Ok(v)
            },
            None => Err(Error::NotFound { msg: "Note version not found".to_owned() }),
        }
    }

    /// Returns the versions that snapshot `note_id`, in ascending id order —
    /// which is their creation order. A note with no versions gives an empty
    /// list.
    pub fn list_note_versions(&self, note_id: u64) -> (r: Vec<NoteVersion>)
        ensures
            versions_listed(
                self@.versions,
                |v: NoteVersionView| v.note_id == note_id,
                r@.map_values(|x: NoteVersion| x@),
            ),
    {
        self.filter_versions(
            |v: &NoteVersion| -> (b: bool) ensures b == (v@.note_id == note_id) {
                v.note_id == note_id
            },
            Ghost(|v: NoteVersionView| v.note_id == note_id),
        )
    }

    /// Copies the version's title and content back over its note, stamping a
    /// fresh update time. A version belonging to a different note is
    /// rejected, and nothing is changed on any failure.
    pub fn revert_to_version(&mut self, note_id: u64, version_id: u64, now: u64) -> (r: Result<
        Note,
        Error,
    >)
        ensures
            ({
                let step = spec_revert(old(self)@, note_id, version_id, now);
                &&& final(self)@ == step.0
                &&& note_result_matches(r, step.1)
            }),
            view_wf(final(self)@),
            r matches Err(e) ==> e is NotFound ==> e.spec_message() == (
            if old(self)@.versions.dom().contains(version_id) {
                "Note not found"@
            } else {
                "Note version not found"@
            }),
            r matches Err(e) ==> e is VersionMismatch ==> e.spec_message()
                == "Version does not match the note"@,
            r matches Err(e) ==> e is InvalidInput ==> e.spec_message()
                == "note record exceeds the maximum encoded size"@,
    {
        proof {
            use_type_invariant(&*self);
            self.lemma_view_parts();
            self.lemma_view_wf();
        }
        let version = match region_get(&self.versions, version_id) {
            Some(bytes) => decode_version(bytes.as_slice()).unwrap(),
            None => {
                return Err(Error::NotFound { msg: "Note version not found".to_owned() });
            },
        };
        if version.note_id != note_id {
            return Err(
                Error::VersionMismatch { msg: "Version does not match the note".to_owned() },
            );
        }
        let stored = match region_get(&self.notes, note_id) {
            Some(bytes) => bytes,
            None => {
                return Err(Error::NotFound { msg: "Note not found".to_owned() });
            },
        };
        let old_note = decode_note(stored.as_slice()).unwrap();
        let note = Note {
            id: old_note.id,
            owner: old_note.owner,
            title: version.title,
            content: version.content,
            created_at: old_note.created_at,
            updated_at: Some(now),
            tag_ids: old_note.tag_ids,
        };
        let bytes = encode_note(&note);
        if bytes.len() > MAX_RECORD_SIZE {
            return Err(
                Error::InvalidInput { msg: "note record exceeds the maximum encoded size".to_owned() },
            );
        }
        proof {
            lemma_parse_note_enc(note@);
        }
        let ghost old_note_bytes = region_bytes(self.notes);
        region_insert(&mut self.notes, note_id, bytes);
        proof {
            self.lemma_view_parts();
            crate::store::lemma_notes_view_insert(old_note_bytes, note_id, enc_note(note@));
            let step = spec_revert(old(self)@, note_id, version_id, now);
            assert(note@ =~= step.1->Ok_0);
            assert(self@ =~= step.0);
            use_type_invariant(&*self);
            self.lemma_view_wf();
        }
        Ok(note)
    }

    /// Removes the version stored under `version_id`.
    pub fn delete_note_version(&mut self, version_id: u64) -> (r: Result<(), Error>)
        ensures
            ({
                let step = spec_delete_version(old(self)@, version_id);
                &&& final(self)@ == step.0
                &&& unit_result_matches(r, step.1)
            }),
            view_wf(final(self)@),
            r matches Err(e) ==> e.spec_message() == "Note version not found"@,
    {
        proof {
            use_type_invariant(&*self);
            self.lemma_view_parts();
            self.lemma_view_wf();
        }
        let ghost old_version_bytes = region_bytes(self.versions);
        match region_remove(&mut self.versions, version_id) {
            Some(_) => {
                proof {
                    self.lemma_view_parts();
                    crate::store::lemma_versions_view_remove(old_version_bytes, version_id);
                    let step = spec_delete_version(old(self)@, version_id);
                    assert(self@ =~= step.0);
                    use_type_invariant(&*self);
                    self.lemma_view_wf();
                }
                Ok(())
            },
            None => {
                proof {
                    self.lemma_view_parts();
                    crate::store::lemma_versions_view_remove(old_version_bytes, version_id);
                    assert(region_bytes(self.versions) =~= old_version_bytes);
                    assert(self@ =~= old(self)@);
                }
                Err(Error::NotFound { msg: "Note version not found".to_owned() })
            },
        }
    }
}

} // verus!
