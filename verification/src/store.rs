//! The durable record store: three entity repositories over isolated engine
//! regions, plus the shared identifier allocator. Every operation's contract
//! is stated against the store's mathematical view — the counter value and
//! one map per repository — through the specification transitions defined
//! beside each operation.

use vstd::prelude::*;

use crate::codec::{
    decode_note, decode_tag, decode_version, enc_note, encode_note, lemma_parse_note_enc,
    parse_note, parse_tag, parse_version,
};
use crate::engine::{
    counter_get, counter_set, counter_value, notes_region_consistent, open_storage, region_bytes,
    region_entries, region_get, region_insert, region_remove, tags_region_consistent,
    versions_region_consistent, Counter, Region,
};
use crate::types::{
    kind_of, no_dup_u64, ErrKind, Error, Note, NotePayload, NoteVersion, NoteVersionView,
    NoteView, Tag, TagView, MAX_RECORD_SIZE,
};
use crate::utils::{decimal_digits, payload_nonempty, u64_to_decimal, _check_if_owner, _check_input};

verus! {

// ---------------------------------------------------------------------------
// The store's mathematical view
// ---------------------------------------------------------------------------
/// What the store holds: the allocator's counter and one map per repository.
#[verifier::ext_equal]
pub struct StoreView {
    pub counter: u64,
    pub notes: Map<u64, NoteView>,
    pub tags: Map<u64, TagView>,
    pub versions: Map<u64, NoteVersionView>,
}

/// The structural facts every reachable store view satisfies: repositories
/// are finite, every record sits under its own id as key, every id was
/// issued by the allocator (so lies between one and the counter), and a
/// note's tag list holds no duplicates.
pub open spec fn view_wf(s: StoreView) -> bool {
    &&& s.notes.dom().finite()
    &&& s.tags.dom().finite()
    &&& s.versions.dom().finite()
    &&& forall|k: u64|
        #[trigger] s.notes.dom().contains(k) ==> 1 <= k <= s.counter && s.notes[k].id == k
            && no_dup_u64(s.notes[k].tag_ids)
    &&& forall|k: u64| #[trigger] s.tags.dom().contains(k) ==> 1 <= k <= s.counter && s.tags[k].id == k
    &&& forall|k: u64|
        #[trigger] s.versions.dom().contains(k) ==> 1 <= k <= s.counter && s.versions[k].id == k
}

// ---------------------------------------------------------------------------
// From region bytes to entity maps
// ---------------------------------------------------------------------------
/// The note map a byte region represents.
pub open spec fn notes_view_of(bytes: Map<u64, Seq<u8>>) -> Map<u64, NoteView> {
    Map::new(|k: u64| bytes.dom().contains(k), |k: u64| parse_note(bytes[k])->0)
}

/// The tag map a byte region represents.
pub open spec fn tags_view_of(bytes: Map<u64, Seq<u8>>) -> Map<u64, TagView> {
    Map::new(|k: u64| bytes.dom().contains(k), |k: u64| parse_tag(bytes[k])->0)
}

/// The version map a byte region represents.
pub open spec fn versions_view_of(bytes: Map<u64, Seq<u8>>) -> Map<u64, NoteVersionView> {
    Map::new(|k: u64| bytes.dom().contains(k), |k: u64| parse_version(bytes[k])->0)
}

// ---------------------------------------------------------------------------
// The store itself
// ---------------------------------------------------------------------------
/// The durable record store. Construct it once and pass it to every
/// operation; all its state lives in the engine's stable memory.
pub struct Store {
    pub(crate) counter: Counter,
    pub(crate) notes: Region,
    pub(crate) tags: Region,
    pub(crate) versions: Region,
}

impl View for Store {
    type V = StoreView;

    closed spec fn view(&self) -> StoreView {
        StoreView {
            counter: counter_value(self.counter),
            notes: notes_view_of(region_bytes(self.notes)),
            tags: tags_view_of(region_bytes(self.tags)),
            versions: versions_view_of(region_bytes(self.versions)),
        }
    }
}

impl Store {
    /// Every byte record in each region is the canonical encoding of an
    /// entity keyed by its own id, issued by the allocator, and within the
    /// record size bound — the same consistency the engine's loader promises
    /// of the state it loads.
    #[verifier::type_invariant]
    pub(crate) open spec fn inv(self) -> bool {
        &&& notes_region_consistent(region_bytes(self.notes), counter_value(self.counter))
        &&& tags_region_consistent(region_bytes(self.tags), counter_value(self.counter))
        &&& versions_region_consistent(region_bytes(self.versions), counter_value(self.counter))
    }

    /// How the store's view is put together from the engine's contents.
    pub(crate) proof fn lemma_view_parts(self)
        ensures
            self@.counter == counter_value(self.counter),
            self@.notes == notes_view_of(region_bytes(self.notes)),
            self@.tags == tags_view_of(region_bytes(self.tags)),
            self@.versions == versions_view_of(region_bytes(self.versions)),
    {
    }

    /// The store's view satisfies the structural well-formedness facts.
    pub(crate) proof fn lemma_view_wf(self)
        requires
            self.inv(),
        ensures
            view_wf(self@),
    {
        assert(self@.notes.dom() =~= region_bytes(self.notes).dom());
        assert(self@.tags.dom() =~= region_bytes(self.tags).dom());
        assert(self@.versions.dom() =~= region_bytes(self.versions).dom());
    }

    /// Opens the store over the engine's backing memory. A memory never
    /// written before yields an empty store with the counter at zero; a
    /// memory carrying an earlier life's records yields exactly those records
    /// and the counter they were issued from, so identifiers keep increasing
    /// across restarts. Either way the loaded state is well-formed.
    pub fn new() -> (s: Store)
        ensures
            view_wf(s@),
    {
        let parts = open_storage();
        let s = Store {
            counter: parts.counter,
            notes: parts.notes,
            tags: parts.tags,
            versions: parts.versions,
        };
        proof {
            use_type_invariant(&s);
            s.lemma_view_wf();
        }
        s
    }
}

// ---------------------------------------------------------------------------
// View-update lemmas
// ---------------------------------------------------------------------------
/// Inserting a note record inserts its parsed note into the view.
pub(crate) proof fn lemma_notes_view_insert(bytes: Map<u64, Seq<u8>>, k: u64, v: Seq<u8>)
    requires
        parse_note(v) is Some,
    ensures
        notes_view_of(bytes.insert(k, v)) == notes_view_of(bytes).insert(k, parse_note(v)->0),
{
    assert(notes_view_of(bytes.insert(k, v)) =~= notes_view_of(bytes).insert(k, parse_note(v)->0));
}

/// Removing a note record removes its note from the view.
pub(crate) proof fn lemma_notes_view_remove(bytes: Map<u64, Seq<u8>>, k: u64)
    ensures
        notes_view_of(bytes.remove(k)) == notes_view_of(bytes).remove(k),
{
    assert(notes_view_of(bytes.remove(k)) =~= notes_view_of(bytes).remove(k));
}

/// Inserting a tag record inserts its parsed tag into the view.
pub(crate) proof fn lemma_tags_view_insert(bytes: Map<u64, Seq<u8>>, k: u64, v: Seq<u8>)
    requires
        parse_tag(v) is Some,
    ensures
        tags_view_of(bytes.insert(k, v)) == tags_view_of(bytes).insert(k, parse_tag(v)->0),
{
    assert(tags_view_of(bytes.insert(k, v)) =~= tags_view_of(bytes).insert(k, parse_tag(v)->0));
}

/// Removing a tag record removes its tag from the view.
pub(crate) proof fn lemma_tags_view_remove(bytes: Map<u64, Seq<u8>>, k: u64)
    ensures
        tags_view_of(bytes.remove(k)) == tags_view_of(bytes).remove(k),
{
    assert(tags_view_of(bytes.remove(k)) =~= tags_view_of(bytes).remove(k));
}

/// Inserting a version record inserts its parsed version into the view.
pub(crate) proof fn lemma_versions_view_insert(bytes: Map<u64, Seq<u8>>, k: u64, v: Seq<u8>)
    requires
        parse_version(v) is Some,
    ensures
        versions_view_of(bytes.insert(k, v)) == versions_view_of(bytes).insert(
            k,
            parse_version(v)->0,
        ),
{
    assert(versions_view_of(bytes.insert(k, v)) =~= versions_view_of(bytes).insert(
        k,
        parse_version(v)->0,
    ));
}

/// Removing a version record removes its version from the view.
pub(crate) proof fn lemma_versions_view_remove(bytes: Map<u64, Seq<u8>>, k: u64)
    ensures
        versions_view_of(bytes.remove(k)) == versions_view_of(bytes).remove(k),
{
    assert(versions_view_of(bytes.remove(k)) =~= versions_view_of(bytes).remove(k));
}

// ---------------------------------------------------------------------------
// Result matching between executable values and transition outcomes
// ---------------------------------------------------------------------------
/// The executable result reports exactly the transition's outcome.
pub open spec fn note_result_matches(r: Result<Note, Error>, s: Result<NoteView, ErrKind>) -> bool {
    match r {
        Ok(n) => s is Ok && s->Ok_0 == n@,
        Err(e) => s is Err && s->Err_0 == kind_of(e),
    }
}

/// The executable unit result reports exactly the transition's outcome.
pub open spec fn unit_result_matches(r: Result<(), Error>, s: Result<(), ErrKind>) -> bool {
    match r {
        Ok(u) => s is Ok,
        Err(e) => s is Err && s->Err_0 == kind_of(e),
    }
}

// ---------------------------------------------------------------------------
// Specification transitions for the note repository
// ---------------------------------------------------------------------------
/// Looking a note up does not change the store; it returns the note stored
/// under the id, or reports that there is none.
pub open spec fn spec_get_note(s: StoreView, id: u64) -> Result<NoteView, ErrKind> {
    if s.notes.dom().contains(id) {
        Ok(s.notes[id])
    } else {
        Err(ErrKind::NotFound)
    }
}

/// Creating a note: the payload must pass the nonempty check, the freshly
/// assigned record must fit the size bound, and then the note is stored
/// under the next identifier with the creation time set and no update time.
pub open spec fn spec_add_note(
    s: StoreView,
    caller: Seq<char>,
    title: Seq<char>,
    content: Seq<char>,
    now: u64,
) -> (StoreView, Result<NoteView, ErrKind>)
    recommends
        s.counter < u64::MAX,
{
    if !payload_nonempty(title, content) {
        (s, Err(ErrKind::ValidationFailed))
    } else {
        let n = NoteView {
            id: (s.counter + 1) as u64,
            owner: caller,
            title: title,
            content: content,
            created_at: now,
            updated_at: None,
            tag_ids: Seq::empty(),
        };
        if enc_note(n).len() > MAX_RECORD_SIZE {
            (s, Err(ErrKind::InvalidInput))
        } else {
            (
                StoreView {
                    counter: n.id,
                    notes: s.notes.insert(n.id, n),
                    tags: s.tags,
                    versions: s.versions,
                },
                Ok(n),
            )
        }
    }
}

/// Updating a note: the payload must pass the nonempty check, the note must
/// exist, the caller must be its owner, and the rewritten record must fit
/// the size bound; then title and content are replaced and the update time
/// set, everything else kept.
pub open spec fn spec_update_note(
    s: StoreView,
    caller: Seq<char>,
    id: u64,
    title: Seq<char>,
    content: Seq<char>,
    now: u64,
) -> (StoreView, Result<NoteView, ErrKind>) {
    if !payload_nonempty(title, content) {
        (s, Err(ErrKind::ValidationFailed))
    } else if !s.notes.dom().contains(id) {
        (s, Err(ErrKind::NotFound))
    } else {
        let old_n = s.notes[id];
        if old_n.owner != caller {
            (s, Err(ErrKind::AuthenticationFailed))
        } else {
            let n = NoteView {
                id: old_n.id,
                owner: old_n.owner,
                title: title,
                content: content,
                created_at: old_n.created_at,
                updated_at: Some(now),
                tag_ids: old_n.tag_ids,
            };
            if enc_note(n).len() > MAX_RECORD_SIZE {
                (s, Err(ErrKind::InvalidInput))
            } else {
                (
                    StoreView {
                        counter: s.counter,
                        notes: s.notes.insert(id, n),
                        tags: s.tags,
                        versions: s.versions,
                    },
                    Ok(n),
                )
            }
        }
    }
}

/// Deleting a note: it must exist and the caller must be its owner; the
/// record is removed and returned.
pub open spec fn spec_delete_note(s: StoreView, caller: Seq<char>, id: u64) -> (
    StoreView,
    Result<NoteView, ErrKind>,
) {
    if !s.notes.dom().contains(id) {
        (s, Err(ErrKind::NotFound))
    } else {
        let old_n = s.notes[id];
        if old_n.owner != caller {
            (s, Err(ErrKind::AuthenticationFailed))
        } else {
            (
                StoreView {
                    counter: s.counter,
                    notes: s.notes.remove(id),
                    tags: s.tags,
                    versions: s.versions,
                },
                Ok(old_n),
            )
        }
    }
}

// ---------------------------------------------------------------------------
// Note operations
// ---------------------------------------------------------------------------
impl Store {
    /// The highest identifier the allocator has issued so far; zero on a
    /// fresh store. The next successful creation issues exactly this plus
    /// one.
    pub fn id_counter(&self) -> (c: u64)
        ensures
            c == self@.counter,
    {
        proof {
            use_type_invariant(&*self);
        }
        counter_get(&self.counter)
    }

    /// Returns the note stored under `id`, or reports that there is none.
    pub fn get_note(&self, id: u64) -> (r: Result<Note, Error>)
        ensures
            note_result_matches(r, spec_get_note(self@, id)),
            r matches Err(e) ==> e.spec_message() == "A note with id="@ + decimal_digits(
                id as nat,
            ) + " not found"@,
    {
        proof {
            use_type_invariant(&*self);
        }
        match region_get(&self.notes, id) {
            Some(bytes) => {
                let n = decode_note(bytes.as_slice()).unwrap();
                Ok(n)
            },
            None => {
                let mut msg = "A note with id=".to_owned();
                msg.append(u64_to_decimal(id).as_str());
                msg.append(" not found");
                Err(Error::NotFound { msg })
            },
        }
    }

    /// Creates a note owned by `caller`, stamped with `now`, under a fresh
    /// identifier.
    pub fn add_note(&mut self, caller: String, payload: NotePayload, now: u64) -> (r: Result<
        Note,
        Error,
    >)
        requires
            old(self)@.counter < u64::MAX,
        ensures
            ({
                let step = spec_add_note(old(self)@, caller@, payload.title@, payload.content@, now);
                &&& final(self)@ == step.0
                &&& note_result_matches(r, step.1)
            }),
            view_wf(final(self)@),
            r matches Err(e) ==> e is ValidationFailed ==> e.spec_message()
                == "title and content must each have at least one character"@,
            r matches Err(e) ==> e is InvalidInput ==> e.spec_message()
                == "note record exceeds the maximum encoded size"@,
    {
        proof {
            use_type_invariant(&*self);
        }
        if let Err(e) = _check_input(&payload) {
            proof {
                self.lemma_view_wf();
            }
            return Err(e);
        }
        let id = counter_get(&self.counter) + 1;
        let note = Note {
            id,
            owner: caller,
            title: payload.title,
            content: payload.content,
            created_at: now,
            updated_at: None,
            tag_ids: Vec::new(),
        };
        let bytes = encode_note(&note);
        if bytes.len() > MAX_RECORD_SIZE {
            proof {
                self.lemma_view_wf();
            }
            return Err(
                Error::InvalidInput { msg: "note record exceeds the maximum encoded size".to_owned() },
            );
        }
        counter_set(&mut self.counter, id);
        proof {
            lemma_parse_note_enc(note@);
        }
        let ghost old_bytes = region_bytes(self.notes);
        region_insert(&mut self.notes, id, bytes);
        proof {
            lemma_notes_view_insert(old_bytes, id, enc_note(note@));
            let step = spec_add_note(old(self)@, caller@, note@.title, note@.content, now);
            assert(note@ =~= step.1->Ok_0);
            assert(self@ =~= step.0);
            use_type_invariant(&*self);
            self.lemma_view_wf();
        }
        Ok(note)
    }

    /// Replaces the title and content of the note under `id` and stamps the
    /// update time; only the note's owner may do so.
    pub fn update_note(&mut self, caller: String, id: u64, payload: NotePayload, now: u64) -> (r:
        Result<Note, Error>)
        ensures
            ({
                let step = spec_update_note(
                    old(self)@,
                    caller@,
                    id,
                    payload.title@,
                    payload.content@,
                    now,
                );
                &&& final(self)@ == step.0
                &&& note_result_matches(r, step.1)
            }),
            view_wf(final(self)@),
            r matches Err(e) ==> e is ValidationFailed ==> e.spec_message()
                == "title and content must each have at least one character"@,
            r matches Err(e) ==> e is NotFound ==> e.spec_message()
                == "Couldn't update a note with id="@ + decimal_digits(id as nat)
                + ". Note not found"@,
            r matches Err(e) ==> e is AuthenticationFailed ==> e.spec_message() == "Caller="@
                + caller@ + " isn't the owner of the note with id="@ + decimal_digits(id as nat),
            r matches Err(e) ==> e is InvalidInput ==> e.spec_message()
                == "note record exceeds the maximum encoded size"@,
    {
        proof {
            use_type_invariant(&*self);
            self.lemma_view_wf();
        }
        if let Err(e) = _check_input(&payload) {
            return Err(e);
        }
        let stored = match region_get(&self.notes, id) {
            Some(bytes) => bytes,
            None => {
                let mut msg = "Couldn't update a note with id=".to_owned();
                msg.append(u64_to_decimal(id).as_str());
                msg.append(". Note not found");
                return Err(Error::NotFound { msg });
            },
        };
        let old_note = decode_note(stored.as_slice()).unwrap();
        if let Err(e) = _check_if_owner(&old_note, &caller) {
            return Err(e);
        }
        let note = Note {
            id: old_note.id,
            owner: old_note.owner,
            title: payload.title,
            content: payload.content,
            created_at: old_note.created_at,
            updated_at: Some(now),
            tag_ids: old_note.tag_ids,
        };
        let bytes = encode_note(&note);
        if bytes.len() > MAX_RECORD_SIZE {
            return Err(
                Error::InvalidInput { msg: "note record exceeds the maximum encoded size".to_owned() },
            );
        }
        proof {
            lemma_parse_note_enc(note@);
        }
        let ghost old_bytes = region_bytes(self.notes);
        region_insert(&mut self.notes, id, bytes);
        proof {
            lemma_notes_view_insert(old_bytes, id, enc_note(note@));
            let step = spec_update_note(old(self)@, caller@, id, note@.title, note@.content, now);
            assert(note@ =~= step.1->Ok_0);
            assert(self@ =~= step.0);
            use_type_invariant(&*self);
            self.lemma_view_wf();
        }
        Ok(note)
    }

    /// Removes the note under `id` and returns it; only the note's owner may
    /// do so. Deleting an absent id reports the miss and changes nothing.
    pub fn delete_note(&mut self, caller: String, id: u64) -> (r: Result<Note, Error>)
        ensures
            ({
                let step = spec_delete_note(old(self)@, caller@, id);
                &&& final(self)@ == step.0
                &&& note_result_matches(r, step.1)
            }),
            view_wf(final(self)@),
            r matches Err(e) ==> e is NotFound ==> e.spec_message()
                == "Couldn't delete a note with id="@ + decimal_digits(id as nat)
                + ". Note not found"@,
            r matches Err(e) ==> e is AuthenticationFailed ==> e.spec_message() == "Caller="@
                + caller@ + " isn't the owner of the note with id="@ + decimal_digits(id as nat),
    {
        proof {
            use_type_invariant(&*self);
            self.lemma_view_wf();
        }
        let stored = match region_get(&self.notes, id) {
            Some(bytes) => bytes,
            None => {
                let mut msg = "Couldn't delete a note with id=".to_owned();
                msg.append(u64_to_decimal(id).as_str());
                msg.append(". Note not found");
                return Err(Error::NotFound { msg });
            },
        };
        let old_note = decode_note(stored.as_slice()).unwrap();
        if let Err(e) = _check_if_owner(&old_note, &caller) {
            return Err(e);
        }
        let ghost old_bytes = region_bytes(self.notes);
        region_remove(&mut self.notes, id);
        proof {
            lemma_notes_view_remove(old_bytes, id);
            let step = spec_delete_note(old(self)@, caller@, id);
            assert(self@ =~= step.0);
            use_type_invariant(&*self);
            self.lemma_view_wf();
        }
        Ok(old_note)
    }
}

/// Whether two strings spell the same characters.
pub fn strings_equal(a: &String, b: &String) -> (r: bool)
    ensures
        r == (a@ == b@),
{
    a.eq(b)
}

/// Stores `note` under its own id, overwriting whatever was there. The id
/// must have been issued by the allocator and the encoded record must fit
/// the size bound.
pub fn do_insert(store: &mut Store, note: &Note)
    requires
        1 <= note@.id <= old(store)@.counter,
        enc_note(note@).len() <= MAX_RECORD_SIZE,
        no_dup_u64(note@.tag_ids),
    ensures
        final(store)@ == (StoreView {
            notes: old(store)@.notes.insert(note@.id, note@),
            ..old(store)@
        }),
        view_wf(final(store)@),
{
    proof {
        use_type_invariant(&*store);
    }
    let bytes = encode_note(note);
    proof {
        lemma_parse_note_enc(note@);
    }
    let ghost old_bytes = region_bytes(store.notes);
    region_insert(&mut store.notes, note.id, bytes);
    proof {
        lemma_notes_view_insert(old_bytes, note@.id, enc_note(note@));
        assert(store@ =~= (StoreView { notes: old(store)@.notes.insert(note@.id, note@), ..old(store)@ }));
        use_type_invariant(&*store);
        store.lemma_view_wf();
    }
}

// ---------------------------------------------------------------------------
// Listing repositories: full ascending traversals filtered by a predicate
// ---------------------------------------------------------------------------
/// `out` holds exactly the notes of `m` selected by `sel`, in ascending id
/// order.
pub open spec fn notes_listed(
    m: Map<u64, NoteView>,
    sel: spec_fn(NoteView) -> bool,
    out: Seq<NoteView>,
) -> bool {
    &&& forall|a: int|
        0 <= a < out.len() ==> m.contains_pair((#[trigger] out[a]).id, out[a]) && sel(out[a])
    &&& forall|k: u64|
        #[trigger] m.dom().contains(k) && sel(m[k]) ==> exists|a: int|
            0 <= a < out.len() && (#[trigger] out[a]).id == k
    &&& forall|a1: int, a2: int| 0 <= a1 < a2 < out.len() ==> out[a1].id < out[a2].id
}

/// `out` holds exactly the tags of `m` selected by `sel`, in ascending id
/// order.
pub open spec fn tags_listed(
    m: Map<u64, TagView>,
    sel: spec_fn(TagView) -> bool,
    out: Seq<TagView>,
) -> bool {
    &&& forall|a: int|
        0 <= a < out.len() ==> m.contains_pair((#[trigger] out[a]).id, out[a]) && sel(out[a])
    &&& forall|k: u64|
        #[trigger] m.dom().contains(k) && sel(m[k]) ==> exists|a: int|
            0 <= a < out.len() && (#[trigger] out[a]).id == k
    &&& forall|a1: int, a2: int| 0 <= a1 < a2 < out.len() ==> out[a1].id < out[a2].id
}

/// `out` holds exactly the versions of `m` selected by `sel`, in ascending id
/// order.
pub open spec fn versions_listed(
    m: Map<u64, NoteVersionView>,
    sel: spec_fn(NoteVersionView) -> bool,
    out: Seq<NoteVersionView>,
) -> bool {
    &&& forall|a: int|
        0 <= a < out.len() ==> m.contains_pair((#[trigger] out[a]).id, out[a]) && sel(out[a])
    &&& forall|k: u64|
        #[trigger] m.dom().contains(k) && sel(m[k]) ==> exists|a: int|
            0 <= a < out.len() && (#[trigger] out[a]).id == k
    &&& forall|a1: int, a2: int| 0 <= a1 < a2 < out.len() ==> out[a1].id < out[a2].id
}

/// Some note of `m` satisfies `sel`.
pub open spec fn some_note_matches(m: Map<u64, NoteView>, sel: spec_fn(NoteView) -> bool) -> bool {
    exists|k: u64| #[trigger] m.dom().contains(k) && sel(m[k])
}

/// Some tag of `m` satisfies `sel`.
pub open spec fn some_tag_matches(m: Map<u64, TagView>, sel: spec_fn(TagView) -> bool) -> bool {
    exists|k: u64| #[trigger] m.dom().contains(k) && sel(m[k])
}

/// A complete ascending listing has exactly as many entries as keys selected.
pub proof fn lemma_notes_listed_count(
    m: Map<u64, NoteView>,
    sel: spec_fn(NoteView) -> bool,
    out: Seq<NoteView>,
)
    requires
        m.dom().finite(),
        notes_listed(m, sel, out),
    ensures
        out.len() == m.dom().filter(|k: u64| sel(m[k])).len(),
{
    let ids = out.map_values(|n: NoteView| n.id);
    assert(ids.no_duplicates());
    ids.unique_seq_to_set();
    let target = m.dom().filter(|k: u64| sel(m[k]));
    assert forall|k: u64| #[trigger] ids.to_set().contains(k) implies target.contains(k) by {
        let a = choose|a: int| 0 <= a < ids.len() && ids[a] == k;
        assert(m.contains_pair(out[a].id, out[a]));
    }
    assert forall|k: u64| #[trigger] target.contains(k) implies ids.to_set().contains(k) by {
        assert(m.dom().contains(k) && sel(m[k]));
        let a = choose|a: int| 0 <= a < out.len() && out[a].id == k;
        assert(ids[a] == k);
    }
    assert(ids.to_set() =~= target);
}

/// A complete ascending version listing has exactly as many entries as keys
/// selected.
pub proof fn lemma_versions_listed_count(
    m: Map<u64, NoteVersionView>,
    sel: spec_fn(NoteVersionView) -> bool,
    out: Seq<NoteVersionView>,
)
    requires
        m.dom().finite(),
        versions_listed(m, sel, out),
    ensures
        out.len() == m.dom().filter(|k: u64| sel(m[k])).len(),
{
    let ids = out.map_values(|v: NoteVersionView| v.id);
    assert(ids.no_duplicates());
    ids.unique_seq_to_set();
    let target = m.dom().filter(|k: u64| sel(m[k]));
    assert forall|k: u64| #[trigger] ids.to_set().contains(k) implies target.contains(k) by {
        let a = choose|a: int| 0 <= a < ids.len() && ids[a] == k;
        assert(m.contains_pair(out[a].id, out[a]));
    }
    assert forall|k: u64| #[trigger] target.contains(k) implies ids.to_set().contains(k) by {
        assert(m.dom().contains(k) && sel(m[k]));
        let a = choose|a: int| 0 <= a < out.len() && out[a].id == k;
        assert(ids[a] == k);
    }
    assert(ids.to_set() =~= target);
}

/// Whether the id list holds `x`.
pub fn vec_contains_u64(v: &Vec<u64>, x: u64) -> (r: bool)
    ensures
        r == v@.contains(x),
{
    let n = v.len();
    for i in 0..n
        invariant
            n == v@.len(),
            forall|a: int| 0 <= a < i ==> v@[a] != x,
    {
        if v[i] == x {
            return true;
        }
    }
    proof {
        assert(forall|a: int| 0 <= a < v@.len() ==> v@[a] != x);
    }
    false
}

impl Store {
    /// Walks the note repository in ascending id order, keeping the notes the
    /// given test accepts; `sel` is the test's meaning on note views.
    #[verifier::loop_isolation(false)]
    #[verifier::rlimit(50)]
    pub(crate) fn filter_notes<F: Fn(&Note) -> bool>(
        &self,
        f: F,
        Ghost(sel): Ghost<spec_fn(NoteView) -> bool>,
    ) -> (out: Vec<Note>)
        requires
            forall|n: &Note| #[trigger] f.requires((n,)),
            forall|n: &Note, b: bool| #[trigger] f.ensures((n,), b) ==> b == sel(n@),
        ensures
            notes_listed(self@.notes, sel, out@.map_values(|x: Note| x@)),
    {
        proof {
            use_type_invariant(&*self);
        }
        let entries = region_entries(&self.notes);
        let mut out: Vec<Note> = Vec::new();
        let count = entries.len();
        for j in 0..count
            invariant
                forall|a: int|
                    0 <= a < out@.len() ==> {
                        let nv = (#[trigger] out@[a])@;
                        &&& self@.notes.contains_pair(nv.id, nv)
                        &&& sel(nv)
                        &&& exists|b: int| 0 <= b < j && nv.id == (#[trigger] entries@[b]).0
                    },
                forall|b: int|
                    0 <= b < j && sel(parse_note((#[trigger] entries@[b]).1@)->0) ==> exists|a: int|
                        0 <= a < out@.len() && (#[trigger] out@[a])@.id == entries@[b].0,
                forall|a1: int, a2: int|
                    0 <= a1 < a2 < out@.len() ==> out@[a1]@.id < out@[a2]@.id,
        {
            let kb = &entries[j];
            proof {
                assert(region_bytes(self.notes).contains_pair(
                    entries@[j as int].0,
                    entries@[j as int].1@,
                ));
            }
            let note = decode_note(kb.1.as_slice()).unwrap();
            proof {
                assert(note@.id == entries@[j as int].0);
                assert(self@.notes.contains_pair(note@.id, note@));
            }
            let ghost prior = out@;
            if f(&note) {
                proof {
                    assert forall|a1: int| 0 <= a1 < prior.len() implies prior[a1]@.id
                        < note@.id by {
                        let b = choose|b: int|
                            0 <= b < j && prior[a1]@.id == (#[trigger] entries@[b]).0;
                        assert(entries@[b].0 < entries@[j as int].0);
                    }
                }
                out.push(note);
            }
            proof {
                assert forall|b: int|
                    0 <= b < j + 1 && sel(parse_note((#[trigger] entries@[b]).1@)->0) implies exists|
                        a: int,
                    |
                        0 <= a < out@.len() && (#[trigger] out@[a])@.id == entries@[b].0 by {
                    if b < j {
                        let a = choose|a: int|
                            0 <= a < prior.len() && (#[trigger] prior[a])@.id == entries@[b].0;
                        assert(out@[a]@.id == entries@[b].0);
                    } else {
                        assert(out@[out@.len() - 1]@.id == entries@[b].0);
                    }
                }
            }
        }
        proof {
            let m = self@.notes;
            let osq = out@.map_values(|x: Note| x@);
            assert forall|k: u64| #[trigger] m.dom().contains(k) && sel(m[k]) implies exists|a: int|
                0 <= a < osq.len() && (#[trigger] osq[a]).id == k by {
                assert(region_bytes(self.notes).dom().contains(k));
                let b = choose|b: int| 0 <= b < entries@.len() && entries@[b].0 == k;
                assert(region_bytes(self.notes).contains_pair(entries@[b].0, entries@[b].1@));
                assert(parse_note(entries@[b].1@)->0 == m[k]);
                let a = choose|a: int| 0 <= a < out@.len() && out@[a]@.id == entries@[b].0;
                assert(osq[a].id == k);
            }
        }
        out
    }

    /// Walks the tag repository in ascending id order, keeping the tags the
    /// given test accepts; `sel` is the test's meaning on tag views.
    #[verifier::loop_isolation(false)]
    #[verifier::rlimit(50)]
    pub(crate) fn filter_tags<F: Fn(&Tag) -> bool>(
        &self,
        f: F,
        Ghost(sel): Ghost<spec_fn(TagView) -> bool>,
    ) -> (out: Vec<Tag>)
        requires
            forall|t: &Tag| #[trigger] f.requires((t,)),
            forall|t: &Tag, b: bool| #[trigger] f.ensures((t,), b) ==> b == sel(t@),
        ensures
            tags_listed(self@.tags, sel, out@.map_values(|x: Tag| x@)),
    {
        proof {
            use_type_invariant(&*self);
        }
        let entries = region_entries(&self.tags);
        let mut out: Vec<Tag> = Vec::new();
        let count = entries.len();
        for j in 0..count
            invariant
                forall|a: int|
                    0 <= a < out@.len() ==> {
                        let tv = (#[trigger] out@[a])@;
                        &&& self@.tags.contains_pair(tv.id, tv)
                        &&& sel(tv)
                        &&& exists|b: int| 0 <= b < j && tv.id == (#[trigger] entries@[b]).0
                    },
                forall|b: int|
                    0 <= b < j && sel(parse_tag((#[trigger] entries@[b]).1@)->0) ==> exists|a: int|
                        0 <= a < out@.len() && (#[trigger] out@[a])@.id == entries@[b].0,
                forall|a1: int, a2: int|
                    0 <= a1 < a2 < out@.len() ==> out@[a1]@.id < out@[a2]@.id,
        {
            let kb = &entries[j];
            proof {
                assert(region_bytes(self.tags).contains_pair(
                    entries@[j as int].0,
                    entries@[j as int].1@,
                ));
            }
            let tag = decode_tag(kb.1.as_slice()).unwrap();
            proof {
                assert(tag@.id == entries@[j as int].0);
                assert(self@.tags.contains_pair(tag@.id, tag@));
            }
            let ghost prior = out@;
            if f(&tag) {
                proof {
                    assert forall|a1: int| 0 <= a1 < prior.len() implies prior[a1]@.id
                        < tag@.id by {
                        let b = choose|b: int|
                            0 <= b < j && prior[a1]@.id == (#[trigger] entries@[b]).0;
                        assert(entries@[b].0 < entries@[j as int].0);
                    }
                }
                out.push(tag);
            }
            proof {
                assert forall|b: int|
                    0 <= b < j + 1 && sel(parse_tag((#[trigger] entries@[b]).1@)->0) implies exists|
                        a: int,
                    |
                        0 <= a < out@.len() && (#[trigger] out@[a])@.id == entries@[b].0 by {
                    if b < j {
                        let a = choose|a: int|
                            0 <= a < prior.len() && (#[trigger] prior[a])@.id == entries@[b].0;
                        assert(out@[a]@.id == entries@[b].0);
                    } else {
                        assert(out@[out@.len() - 1]@.id == entries@[b].0);
                    }
                }
            }
        }
        proof {
            let m = self@.tags;
            let osq = out@.map_values(|x: Tag| x@);
            assert forall|k: u64| #[trigger] m.dom().contains(k) && sel(m[k]) implies exists|a: int|
                0 <= a < osq.len() && (#[trigger] osq[a]).id == k by {
                assert(region_bytes(self.tags).dom().contains(k));
                let b = choose|b: int| 0 <= b < entries@.len() && entries@[b].0 == k;
                assert(region_bytes(self.tags).contains_pair(entries@[b].0, entries@[b].1@));
                assert(parse_tag(entries@[b].1@)->0 == m[k]);
                let a = choose|a: int| 0 <= a < out@.len() && out@[a]@.id == entries@[b].0;
                assert(osq[a].id == k);
            }
        }
        out
    }

    /// Walks the version repository in ascending id order, keeping the
    /// versions the given test accepts; `sel` is the test's meaning on
    /// version views.
    #[verifier::loop_isolation(false)]
    #[verifier::rlimit(50)]
    pub(crate) fn filter_versions<F: Fn(&NoteVersion) -> bool>(
        &self,
        f: F,
        Ghost(sel): Ghost<spec_fn(NoteVersionView) -> bool>,
    ) -> (out: Vec<NoteVersion>)
        requires
            forall|v: &NoteVersion| #[trigger] f.requires((v,)),
            forall|v: &NoteVersion, b: bool| #[trigger] f.ensures((v,), b) ==> b == sel(v@),
        ensures
            versions_listed(self@.versions, sel, out@.map_values(|x: NoteVersion| x@)),
    {
        proof {
            use_type_invariant(&*self);
        }
        let entries = region_entries(&self.versions);
        let mut out: Vec<NoteVersion> = Vec::new();
        let count = entries.len();
        for j in 0..count
            invariant
                forall|a: int|
                    0 <= a < out@.len() ==> {
                        let vv = (#[trigger] out@[a])@;
                        &&& self@.versions.contains_pair(vv.id, vv)
                        &&& sel(vv)
                        &&& exists|b: int| 0 <= b < j && vv.id == (#[trigger] entries@[b]).0
                    },
                forall|b: int|
                    0 <= b < j && sel(parse_version((#[trigger] entries@[b]).1@)->0) ==> exists|
                        a: int,
                    |
                        0 <= a < out@.len() && (#[trigger] out@[a])@.id == entries@[b].0,
                forall|a1: int, a2: int|
                    0 <= a1 < a2 < out@.len() ==> out@[a1]@.id < out@[a2]@.id,
        {
            let kb = &entries[j];
            proof {
                assert(region_bytes(self.versions).contains_pair(
                    entries@[j as int].0,
                    entries@[j as int].1@,
                ));
            }
            let version = decode_version(kb.1.as_slice()).unwrap();
            proof {
                assert(version@.id == entries@[j as int].0);
                assert(self@.versions.contains_pair(version@.id, version@));
            }
            let ghost prior = out@;
            if f(&version) {
                proof {
                    assert forall|a1: int| 0 <= a1 < prior.len() implies prior[a1]@.id
                        < version@.id by {
                        let b = choose|b: int|
                            0 <= b < j && prior[a1]@.id == (#[trigger] entries@[b]).0;
                        assert(entries@[b].0 < entries@[j as int].0);
                    }
                }
                out.push(version);
            }
            proof {
                assert forall|b: int|
                    0 <= b < j + 1 && sel(parse_version((#[trigger] entries@[b]).1@)->0) implies exists|
                        a: int,
                    |
                        0 <= a < out@.len() && (#[trigger] out@[a])@.id == entries@[b].0 by {
                    if b < j {
                        let a = choose|a: int|
                            0 <= a < prior.len() && (#[trigger] prior[a])@.id == entries@[b].0;
                        assert(out@[a]@.id == entries@[b].0);
                    } else {
                        assert(out@[out@.len() - 1]@.id == entries@[b].0);
                    }
                }
            }
        }
        proof {
            let m = self@.versions;
            let osq = out@.map_values(|x: NoteVersion| x@);
            assert forall|k: u64| #[trigger] m.dom().contains(k) && sel(m[k]) implies exists|a: int|
                0 <= a < osq.len() && (#[trigger] osq[a]).id == k by {
                assert(region_bytes(self.versions).dom().contains(k));
                let b = choose|b: int| 0 <= b < entries@.len() && entries@[b].0 == k;
                assert(region_bytes(self.versions).contains_pair(entries@[b].0, entries@[b].1@));
                assert(parse_version(entries@[b].1@)->0 == m[k]);
                let a = choose|a: int| 0 <= a < out@.len() && out@[a]@.id == entries@[b].0;
                assert(osq[a].id == k);
            }
        }
        out
    }
}

/// Returns the note stored under `id`, if there is one.
pub fn _get_note(store: &Store, id: &u64) -> (r: Option<Note>)
    ensures
        match r {
            Some(n) => store@.notes.dom().contains(*id) && n@ == store@.notes[*id],
            None => !store@.notes.dom().contains(*id),
        },
{
    proof {
        use_type_invariant(&*store);
    }
    match region_get(&store.notes, *id) {
        Some(bytes) => Some(decode_note(bytes.as_slice()).unwrap()),
        None => None,
    }
}

} // verus!

