//! Tag management and tag assignment. Tag names are kept unique at creation
//! by a full scan; assignment rewrites the whole note record, since the
//! engine offers only whole-record reads and writes.

use vstd::prelude::*;

use crate::codec::{
    decode_note, enc_note, enc_tag, encode_note, encode_tag, lemma_enc_note_len,
    lemma_enc_parse_note, lemma_parse_note_enc, lemma_parse_tag_enc,
};
use crate::engine::{counter_get, counter_set, region_bytes, region_get, region_insert, region_remove};
use crate::store::{
    some_tag_matches, strings_equal, tags_listed, unit_result_matches, vec_contains_u64, view_wf,
    Store, StoreView,
};
use crate::types::{
    kind_of, no_dup_u64, ErrKind, Error, NoteView, Tag, TagPayload, TagView, MAX_RECORD_SIZE,
};

verus! {

/// Some live tag already carries this name.
pub open spec fn tag_name_taken(s: StoreView, name: Seq<char>) -> bool {
    some_tag_matches(s.tags, |t: TagView| t.name == name)
}

/// The executable tag result reports exactly the transition's outcome.
pub open spec fn tag_result_matches(r: Result<Tag, Error>, s: Result<TagView, ErrKind>) -> bool {
    match r {
        Ok(t) => s is Ok && s->Ok_0 == t@,
        Err(e) => s is Err && s->Err_0 == kind_of(e),
    }
}

// ---------------------------------------------------------------------------
// Specification transitions for the tag repository
// ---------------------------------------------------------------------------
/// Creating a tag: the name must not be in use and the record must fit the
/// size bound; the tag is stored under the next identifier.
pub open spec fn spec_add_tag(s: StoreView, name: Seq<char>) -> (StoreView, Result<TagView, ErrKind>)
    recommends
        s.counter < u64::MAX,
{
    if tag_name_taken(s, name) {
        (s, Err(ErrKind::DuplicateTagName))
    } else {
        let t = TagView { id: (s.counter + 1) as u64, name: name };
        if enc_tag(t).len() > MAX_RECORD_SIZE {
            (s, Err(ErrKind::InvalidInput))
        } else {
            (
                StoreView {
                    counter: t.id,
                    notes: s.notes,
                    tags: s.tags.insert(t.id, t),
                    versions: s.versions,
                },
                Ok(t),
            )
        }
    }
}

/// Renaming a tag: it must exist and the rewritten record must fit the size
/// bound; the id is preserved.
pub open spec fn spec_update_tag(s: StoreView, id: u64, name: Seq<char>) -> (
    StoreView,
    Result<TagView, ErrKind>,
) {
    if !s.tags.dom().contains(id) {
        (s, Err(ErrKind::NotFound))
    } else {
        let t = TagView { id: id, name: name };
        if enc_tag(t).len() > MAX_RECORD_SIZE {
            (s, Err(ErrKind::InvalidInput))
        } else {
            (
                StoreView {
                    counter: s.counter,
                    notes: s.notes,
                    tags: s.tags.insert(id, t),
                    versions: s.versions,
                },
                Ok(t),
            )
        }
    }
}

/// Deleting a tag: it must exist; notes that reference it keep the dangling
/// id on purpose.
pub open spec fn spec_delete_tag(s: StoreView, id: u64) -> (StoreView, Result<(), ErrKind>) {
    if !s.tags.dom().contains(id) {
        (s, Err(ErrKind::NotFound))
    } else {
        (
            StoreView {
                counter: s.counter,
                notes: s.notes,
                tags: s.tags.remove(id),
                versions: s.versions,
            },
            Ok(()),
        )
    }
}

/// Assigning a tag to a note: the note must exist, the tag must not already
/// be assigned, and the grown record must fit the size bound. The tag id is
/// appended to the note's list; nothing checks that a tag with that id
/// exists, by design.
pub open spec fn spec_assign_tag(s: StoreView, note_id: u64, tag_id: u64) -> (
    StoreView,
    Result<(), ErrKind>,
) {
    if !s.notes.dom().contains(note_id) {
        (s, Err(ErrKind::NotFound))
    } else {
        let n = s.notes[note_id];
        if n.tag_ids.contains(tag_id) {
            (s, Err(ErrKind::AlreadyAssigned))
        } else {
            let n2 = NoteView {
                id: n.id,
                owner: n.owner,
                title: n.title,
                content: n.content,
                created_at: n.created_at,
                updated_at: n.updated_at,
                tag_ids: n.tag_ids.push(tag_id),
            };
            if enc_note(n2).len() > MAX_RECORD_SIZE {
                (s, Err(ErrKind::InvalidInput))
            } else {
                (
                    StoreView {
                        counter: s.counter,
                        notes: s.notes.insert(note_id, n2),
                        tags: s.tags,
                        versions: s.versions,
                    },
                    Ok(()),
                )
            }
        }
    }
}

/// The elements of `s` other than `x`, in their original order.
pub open spec fn remove_all_u64(s: Seq<u64>, x: u64) -> Seq<u64>
    decreases s.len(),
{
    if s.len() == 0 {
        Seq::empty()
    } else if s[0] == x {
        remove_all_u64(s.skip(1), x)
    } else {
        seq![s[0]] + remove_all_u64(s.skip(1), x)
    }
}

/// Removing a tag from a note: the note must exist; every occurrence of the
/// tag id leaves its list, and removing an unassigned tag succeeds without
/// changing the list.
pub open spec fn spec_remove_tag(s: StoreView, note_id: u64, tag_id: u64) -> (
    StoreView,
    Result<(), ErrKind>,
) {
    if !s.notes.dom().contains(note_id) {
        (s, Err(ErrKind::NotFound))
    } else {
        let n = s.notes[note_id];
        let n2 = NoteView {
            id: n.id,
            owner: n.owner,
            title: n.title,
            content: n.content,
            created_at: n.created_at,
            updated_at: n.updated_at,
            tag_ids: remove_all_u64(n.tag_ids, tag_id),
        };
        (
            StoreView {
                counter: s.counter,
                notes: s.notes.insert(note_id, n2),
                tags: s.tags,
                versions: s.versions,
            },
            Ok(()),
        )
    }
}

// ---------------------------------------------------------------------------
// Lemmas about removal and appending on id lists
// ---------------------------------------------------------------------------
/// Removal gives a shorter list whose elements all come from the original
/// and differ from the removed id, and removal keeps the list free of
/// duplicates.
pub proof fn lemma_remove_all_props(s: Seq<u64>, x: u64)
    ensures
        remove_all_u64(s, x).len() <= s.len(),
        forall|y: u64| #[trigger] remove_all_u64(s, x).contains(y) ==> s.contains(y) && y != x,
        no_dup_u64(s) ==> no_dup_u64(remove_all_u64(s, x)),
    decreases s.len(),
{
    if s.len() == 0 {
    } else {
        let tail = s.skip(1);
        lemma_remove_all_props(tail, x);
        assert forall|y: u64| #[trigger] tail.contains(y) implies s.contains(y) by {
            let j = choose|j: int| 0 <= j < tail.len() && tail[j] == y;
            assert(s[j + 1] == y);
        }
        if no_dup_u64(s) {
            assert forall|i: int, j: int| 0 <= i < j < tail.len() implies tail[i] != tail[j] by {
                assert(s[i + 1] != s[j + 1]);
            }
        }
        if s[0] != x {
            let rec = remove_all_u64(tail, x);
            let r = seq![s[0]] + rec;
            assert(remove_all_u64(s, x) == r);
            assert forall|y: u64| #[trigger] r.contains(y) implies s.contains(y) && y != x by {
                let j = choose|j: int| 0 <= j < r.len() && r[j] == y;
                if j == 0 {
                    assert(s[0] == y);
                    assert(s.contains(y));
                } else {
                    assert(rec[j - 1] == y);
                    assert(rec.contains(y));
                }
            }
            if no_dup_u64(s) {
                assert forall|i: int, j: int| 0 <= i < j < r.len() implies r[i] != r[j] by {
                    if i == 0 {
                        assert(rec[j - 1] == r[j]);
                        assert(rec.contains(rec[j - 1]));
                        let k = choose|k: int| 0 <= k < tail.len() && tail[k] == r[j];
                        assert(s[k + 1] == r[j]);
                        assert(s[0] != s[k + 1]);
                    } else {
                        assert(r[i] == rec[i - 1] && r[j] == rec[j - 1]);
                    }
                }
            }
        }
    }
}

/// Splitting a removal's last considered element off.
proof fn lemma_remove_all_snoc(s: Seq<u64>, x: u64, i: int)
    requires
        0 <= i < s.len(),
    ensures
        remove_all_u64(s.take(i + 1), x) == remove_all_u64(s.take(i), x) + (if s[i] == x {
            Seq::<u64>::empty()
        } else {
            seq![s[i]]
        }),
    decreases i,
{
    let tail_piece = if s[i] == x {
        Seq::<u64>::empty()
    } else {
        seq![s[i]]
    };
    if i == 0 {
        assert(s.take(0) =~= Seq::<u64>::empty());
        assert(s.take(1) =~= seq![s[0]]);
        if s[0] == x {
            assert(s.take(1).skip(1) =~= Seq::<u64>::empty());
            assert(remove_all_u64(s.take(1), x) =~= remove_all_u64(s.take(0), x) + tail_piece);
        } else {
            assert(s.take(1).skip(1) =~= Seq::<u64>::empty());
            assert(remove_all_u64(s.take(1), x) =~= remove_all_u64(s.take(0), x) + tail_piece);
        }
    } else {
        lemma_remove_all_snoc(s.skip(1), x, i - 1);
        assert(s.take(i + 1)[0] == s[0]);
        assert(s.take(i)[0] == s[0]);
        assert(s.take(i + 1).skip(1) =~= s.skip(1).take(i));
        assert(s.take(i).skip(1) =~= s.skip(1).take(i - 1));
        assert(s.skip(1)[i - 1] == s[i]);
        if s[0] == x {
            assert(remove_all_u64(s.take(i + 1), x) == remove_all_u64(s.skip(1).take(i), x));
        } else {
            assert(remove_all_u64(s.take(i + 1), x) =~= remove_all_u64(s.take(i), x)
                + tail_piece);
        }
    }
}

/// Appending an id that is not in a duplicate-free list keeps it
/// duplicate-free.
pub(crate) proof fn lemma_no_dup_push(s: Seq<u64>, x: u64)
    requires
        no_dup_u64(s),
        !s.contains(x),
    ensures
        no_dup_u64(s.push(x)),
{
    assert forall|i: int, j: int| 0 <= i < j < s.push(x).len() implies s.push(x)[i] != s.push(
        x,
    )[j] by {
        if j == s.len() {
            assert(s.push(x)[i] == s[i]);
            if s[i] == x {
                assert(s.contains(x));
            }
        }
    }
}

// ---------------------------------------------------------------------------
// Tag operations
// ---------------------------------------------------------------------------
impl Store {
    /// Creates a tag under a fresh identifier; a name already in use is
    /// rejected and the repository is left exactly as it was.
    pub fn add_tag(&mut self, payload: TagPayload) -> (r: Result<Tag, Error>)
        requires
            old(self)@.counter < u64::MAX,
        ensures
            ({
                let step = spec_add_tag(old(self)@, payload.name@);
                &&& final(self)@ == step.0
                &&& tag_result_matches(r, step.1)
            }),
            view_wf(final(self)@),
            r matches Err(e) ==> e is DuplicateTagName ==> e.spec_message()
                == "Tag with this name already exists"@,
            r matches Err(e) ==> e is InvalidInput ==> e.spec_message()
                == "tag record exceeds the maximum encoded size"@,
    {
        proof {
            use_type_invariant(&*self);
            self.lemma_view_parts();
            self.lemma_view_wf();
        }
        let dups = self.filter_tags(
            |t: &Tag| -> (b: bool) ensures b == (t@.name == payload.name@) {
                strings_equal(&t.name, &payload.name)
            },
            Ghost(|t: TagView| t.name == payload.name@),
        );
        let ghost dsq = dups@.map_values(|x: Tag| x@);
        if dups.len() > 0 {
            proof {
                assert(self@.tags.contains_pair(dsq[0].id, dsq[0]));
            }
            return Err(
                Error::DuplicateTagName { msg: "Tag with this name already exists".to_owned() },
            );
        }
        proof {
            assert(dsq.len() == 0);
            assert(!tag_name_taken(self@, payload.name@));
        }
        let id = counter_get(&self.counter) + 1;
        let tag = Tag { id, name: payload.name };
        let bytes = encode_tag(&tag);
        if bytes.len() > MAX_RECORD_SIZE {
            return Err(
                Error::InvalidInput { msg: "tag record exceeds the maximum encoded size".to_owned() },
            );
        }
        counter_set(&mut self.counter, id);
        proof {
            lemma_parse_tag_enc(tag@);
        }
        let ghost old_tag_bytes = region_bytes(self.tags);
        region_insert(&mut self.tags, id, bytes);
        proof {
            self.lemma_view_parts();
            crate::store::lemma_tags_view_insert(old_tag_bytes, id, enc_tag(tag@));
            let step = spec_add_tag(old(self)@, tag@.name);
            assert(tag@ =~= step.1->Ok_0);
            assert(self@ =~= step.0);
            use_type_invariant(&*self);
            self.lemma_view_parts();
            self.lemma_view_wf();
        }
        Ok(tag)
    }

    /// Returns every tag, in ascending id order. An empty repository gives an
    /// empty list.
    pub fn list_all_tags(&self) -> (r: Vec<Tag>)
        ensures
            tags_listed(self@.tags, |t: TagView| true, r@.map_values(|x: Tag| x@)),
    {
        self.filter_tags(|t: &Tag| -> (b: bool) ensures b == true { true }, Ghost(|t: TagView| true))
    }

    /// Renames the tag under `id`, keeping its identifier.
    pub fn update_tag(&mut self, id: u64, payload: TagPayload) -> (r: Result<Tag, Error>)
        ensures
            ({
                let step = spec_update_tag(old(self)@, id, payload.name@);
                &&& final(self)@ == step.0
                &&& tag_result_matches(r, step.1)
            }),
            view_wf(final(self)@),
            r matches Err(e) ==> e is NotFound ==> e.spec_message() == "Tag not found"@,
            r matches Err(e) ==> e is InvalidInput ==> e.spec_message()
                == "tag record exceeds the maximum encoded size"@,
    {
        proof {
            use_type_invariant(&*self);
            self.lemma_view_parts();
            self.lemma_view_wf();
        }
        if !crate::engine::region_contains(&self.tags, id) {
            return Err(Error::NotFound { msg: "Tag not found".to_owned() });
        }
        let tag = Tag { id, name: payload.name };
        let bytes = encode_tag(&tag);
        if bytes.len() > MAX_RECORD_SIZE {
            return Err(
                Error::InvalidInput { msg: "tag record exceeds the maximum encoded size".to_owned() },
            );
        }
        proof {
            lemma_parse_tag_enc(tag@);
        }
        let ghost old_tag_bytes = region_bytes(self.tags);
        region_insert(&mut self.tags, id, bytes);
        proof {
            self.lemma_view_parts();
            crate::store::lemma_tags_view_insert(old_tag_bytes, id, enc_tag(tag@));
            let step = spec_update_tag(old(self)@, id, tag@.name);
            assert(tag@ =~= step.1->Ok_0);
            assert(self@ =~= step.0);
            use_type_invariant(&*self);
            self.lemma_view_parts();
            self.lemma_view_wf();
        }
        Ok(tag)
    }

    /// Removes the tag under `id`. Notes referencing it keep the dangling id.
    pub fn delete_tag(&mut self, id: u64) -> (r: Result<(), Error>)
        ensures
            ({
                let step = spec_delete_tag(old(self)@, id);
                &&& final(self)@ == step.0
                &&& unit_result_matches(r, step.1)
            }),
            view_wf(final(self)@),
            r matches Err(e) ==> e.spec_message() == "Tag not found"@,
    {
        proof {
            use_type_invariant(&*self);
            self.lemma_view_parts();
            self.lemma_view_wf();
        }
        let ghost old_tag_bytes = region_bytes(self.tags);
        match region_remove(&mut self.tags, id) {
            Some(_) => {
                proof {
                    self.lemma_view_parts();
                    crate::store::lemma_tags_view_remove(old_tag_bytes, id);
                    let step = spec_delete_tag(old(self)@, id);
                    assert(self@ =~= step.0);
                    use_type_invariant(&*self);
                    self.lemma_view_wf();
                }
                Ok(())
            },
            None => {
                proof {
                    self.lemma_view_parts();
                    crate::store::lemma_tags_view_remove(old_tag_bytes, id);
                    assert(region_bytes(self.tags) =~= old_tag_bytes);
                    assert(self@ =~= old(self)@);
                }
                Err(Error::NotFound { msg: "Tag not found".to_owned() })
            },
        }
    }

    /// Appends `tag_id` to the note's tag list; assigning a tag the note
    /// already carries is an error and leaves the list unchanged, so the
    /// list never holds duplicates.
    pub fn assign_tag_to_note(&mut self, note_id: u64, tag_id: u64) -> (r: Result<(), Error>)
        ensures
            ({
                let step = spec_assign_tag(old(self)@, note_id, tag_id);
                &&& final(self)@ == step.0
                &&& unit_result_matches(r, step.1)
            }),
            view_wf(final(self)@),
            r matches Err(e) ==> e is NotFound ==> e.spec_message() == "Note not found"@,
            r matches Err(e) ==> e is AlreadyAssigned ==> e.spec_message()
                == "Tag already assigned to this note"@,
            r matches Err(e) ==> e is InvalidInput ==> e.spec_message()
                == "note record exceeds the maximum encoded size"@,
    {
        proof {
            use_type_invariant(&*self);
            self.lemma_view_parts();
            self.lemma_view_wf();
        }
        let stored = match region_get(&self.notes, note_id) {
            Some(bytes) => bytes,
            None => {
                return Err(Error::NotFound { msg: "Note not found".to_owned() });
            },
        };
        let mut note = decode_note(stored.as_slice()).unwrap();
        if vec_contains_u64(&note.tag_ids, tag_id) {
            return Err(
                Error::AlreadyAssigned { msg: "Tag already assigned to this note".to_owned() },
            );
        }
        let ghost old_ids = note.tag_ids@;
        note.tag_ids.push(tag_id);
        let bytes = encode_note(&note);
        if bytes.len() > MAX_RECORD_SIZE {
            return Err(
                Error::InvalidInput { msg: "note record exceeds the maximum encoded size".to_owned() },
            );
        }
        proof {
            lemma_parse_note_enc(note@);
            lemma_no_dup_push(old_ids, tag_id);
        }
        let ghost old_note_bytes = region_bytes(self.notes);
        region_insert(&mut self.notes, note_id, bytes);
        proof {
            self.lemma_view_parts();
            crate::store::lemma_notes_view_insert(old_note_bytes, note_id, enc_note(note@));
            let step = spec_assign_tag(old(self)@, note_id, tag_id);
            assert(note@ =~= spec_assign_tag(old(self)@, note_id, tag_id).0.notes[note_id]);
            assert(self@ =~= step.0);
            use_type_invariant(&*self);
            self.lemma_view_parts();
            self.lemma_view_wf();
        }
        Ok(())
    }

    /// Strikes `tag_id` from the note's tag list; removing a tag the note
    /// does not carry succeeds and changes nothing in the list.
    #[verifier::rlimit(50)]
    pub fn remove_tag_from_note(&mut self, note_id: u64, tag_id: u64) -> (r: Result<(), Error>)
        ensures
            ({
                let step = spec_remove_tag(old(self)@, note_id, tag_id);
                &&& final(self)@ == step.0
                &&& unit_result_matches(r, step.1)
            }),
            view_wf(final(self)@),
            r matches Err(e) ==> e.spec_message() == "Note not found"@,
    {
        proof {
            use_type_invariant(&*self);
            self.lemma_view_parts();
            self.lemma_view_wf();
        }
        let stored = match region_get(&self.notes, note_id) {
            Some(bytes) => bytes,
            None => {
                return Err(Error::NotFound { msg: "Note not found".to_owned() });
            },
        };
        let mut note = decode_note(stored.as_slice()).unwrap();
        let ghost old_note = note@;
        let mut kept: Vec<u64> = Vec::new();
        let count = note.tag_ids.len();
        proof {
            assert(note.tag_ids@.take(0) =~= Seq::<u64>::empty());
        }
        for i in 0..count
            invariant
                count == note.tag_ids@.len(),
                kept@ == remove_all_u64(note.tag_ids@.take(i as int), tag_id),
        {
            let v = note.tag_ids[i];
            proof {
                lemma_remove_all_snoc(note.tag_ids@, tag_id, i as int);
            }
            if v != tag_id {
                kept.push(v);
                proof {
                    assert(kept@ =~= remove_all_u64(note.tag_ids@.take(i as int + 1), tag_id));
                }
            } else {
                proof {
                    assert(kept@ =~= remove_all_u64(note.tag_ids@.take(i as int + 1), tag_id));
                }
            }
        }
        proof {
            assert(note.tag_ids@.take(count as int) =~= note.tag_ids@);
        }
        note.tag_ids = kept;
        proof {
            lemma_remove_all_props(old_note.tag_ids, tag_id);
            lemma_enc_note_len(old_note);
            lemma_enc_note_len(note@);
            lemma_enc_parse_note(stored@);
            assert(enc_note(note@).len() <= MAX_RECORD_SIZE);
            lemma_parse_note_enc(note@);
        }
        let bytes = encode_note(&note);
        let ghost old_note_bytes = region_bytes(self.notes);
        region_insert(&mut self.notes, note_id, bytes);
        proof {
            self.lemma_view_parts();
            crate::store::lemma_notes_view_insert(old_note_bytes, note_id, enc_note(note@));
            let step = spec_remove_tag(old(self)@, note_id, tag_id);
            assert(note@ =~= step.0.notes[note_id]);
            assert(self@ =~= step.0);
            use_type_invariant(&*self);
            self.lemma_view_parts();
            self.lemma_view_wf();
        }
        Ok(())
    }
}

} // verus!
