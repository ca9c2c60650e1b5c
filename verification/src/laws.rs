//! The store's laws: properties that span several operations, stated over
//! the specification transitions and proved once and for all. The codec's
//! round-trip laws live beside the codec itself.

use vstd::prelude::*;

use crate::store::{
    spec_add_note, spec_delete_note, spec_get_note, spec_update_note, view_wf, StoreView,
};
use crate::tags::{
    lemma_no_dup_push, spec_add_tag, spec_assign_tag, spec_delete_tag, spec_remove_tag,
    spec_update_tag, tag_name_taken,
};
use crate::types::{no_dup_u64, ErrKind};
use crate::versions::{
    spec_create_version, spec_delete_version, spec_revert, version_count, version_keys_for,
};

verus! {

// ---------------------------------------------------------------------------
// Creation followed by lookup
// ---------------------------------------------------------------------------
/// Creating a note and then looking its id up returns a note carrying the
/// payload's title and content and the creation time, with no update time
/// and no tags, owned by the caller.
pub proof fn lemma_add_note_then_get(
    s: StoreView,
    caller: Seq<char>,
    title: Seq<char>,
    content: Seq<char>,
    now: u64,
)
    requires
        s.counter < u64::MAX,
        spec_add_note(s, caller, title, content, now).1 is Ok,
    ensures
        ({
            let step = spec_add_note(s, caller, title, content, now);
            let n = step.1->Ok_0;
            &&& spec_get_note(step.0, n.id) is Ok
            &&& spec_get_note(step.0, n.id)->Ok_0 == n
            &&& n.owner == caller
            &&& n.title == title
            &&& n.content == content
            &&& n.created_at == now
            &&& n.updated_at is None
            &&& n.tag_ids == Seq::<u64>::empty()
        }),
{
}

// ---------------------------------------------------------------------------
// Identifier discipline
// ---------------------------------------------------------------------------
/// One mutating operation of the store, with its inputs.
pub enum Op {
    AddNote { caller: Seq<char>, title: Seq<char>, content: Seq<char>, now: u64 },
    UpdateNote { caller: Seq<char>, id: u64, title: Seq<char>, content: Seq<char>, now: u64 },
    DeleteNote { caller: Seq<char>, id: u64 },
    AddTag { name: Seq<char> },
    UpdateTag { id: u64, name: Seq<char> },
    DeleteTag { id: u64 },
    AssignTag { note_id: u64, tag_id: u64 },
    RemoveTag { note_id: u64, tag_id: u64 },
    CreateVersion { note_id: u64, title: Seq<char>, content: Seq<char>, now: u64 },
    Revert { note_id: u64, version_id: u64, now: u64 },
    DeleteVersion { version_id: u64 },
}

/// The store after one operation, whether it succeeded or not.
pub open spec fn apply_op(s: StoreView, op: Op) -> StoreView {
    match op {
        Op::AddNote { caller, title, content, now } => spec_add_note(
            s,
            caller,
            title,
            content,
            now,
        ).0,
        Op::UpdateNote { caller, id, title, content, now } => spec_update_note(
            s,
            caller,
            id,
            title,
            content,
            now,
        ).0,
        Op::DeleteNote { caller, id } => spec_delete_note(s, caller, id).0,
        Op::AddTag { name } => spec_add_tag(s, name).0,
        Op::UpdateTag { id, name } => spec_update_tag(s, id, name).0,
        Op::DeleteTag { id } => spec_delete_tag(s, id).0,
        Op::AssignTag { note_id, tag_id } => spec_assign_tag(s, note_id, tag_id).0,
        Op::RemoveTag { note_id, tag_id } => spec_remove_tag(s, note_id, tag_id).0,
        Op::CreateVersion { note_id, title, content, now } => spec_create_version(
            s,
            note_id,
            title,
            content,
            now,
        ).0,
        Op::Revert { note_id, version_id, now } => spec_revert(s, note_id, version_id, now).0,
        Op::DeleteVersion { version_id } => spec_delete_version(s, version_id).0,
    }
}

/// The identifier the operation hands out, if it is a creation and succeeds.
pub open spec fn issued_id(s: StoreView, op: Op) -> Option<u64> {
    match op {
        Op::AddNote { caller, title, content, now } => {
            let r = spec_add_note(s, caller, title, content, now).1;
            if r is Ok {
                Some(r->Ok_0.id)
            } else {
                None
            }
        },
        Op::AddTag { name } => {
            let r = spec_add_tag(s, name).1;
            if r is Ok {
                Some(r->Ok_0.id)
            } else {
                None
            }
        },
        Op::CreateVersion { note_id, title, content, now } => {
            let r = spec_create_version(s, note_id, title, content, now).1;
            if r is Ok {
                Some(r->Ok_0.id)
            } else {
                None
            }
        },
        _ => None,
    }
}

/// The counter stays clear of its last value along the whole run.
pub open spec fn ops_within_counter(s: StoreView, ops: Seq<Op>) -> bool
    decreases ops.len(),
{
    ops.len() == 0 || (s.counter < u64::MAX && ops_within_counter(apply_op(s, ops[0]), ops.skip(1)))
}

/// The store after a run of operations.
pub open spec fn apply_ops(s: StoreView, ops: Seq<Op>) -> StoreView
    decreases ops.len(),
{
    if ops.len() == 0 {
        s
    } else {
        apply_ops(apply_op(s, ops[0]), ops.skip(1))
    }
}

/// No operation ever lowers the identifier counter; a creation raises it.
pub proof fn lemma_op_counter_monotone(s: StoreView, op: Op)
    requires
        s.counter < u64::MAX,
    ensures
        apply_op(s, op).counter >= s.counter,
        issued_id(s, op) matches Some(id) ==> id == s.counter + 1 && apply_op(s, op).counter == id,
{
}

/// The counter never decreases along a run of operations.
pub proof fn lemma_ops_counter_monotone(s: StoreView, ops: Seq<Op>)
    requires
        ops_within_counter(s, ops),
    ensures
        apply_ops(s, ops).counter >= s.counter,
    decreases ops.len(),
{
    if ops.len() > 0 {
        lemma_op_counter_monotone(s, ops[0]);
        lemma_ops_counter_monotone(apply_op(s, ops[0]), ops.skip(1));
    }
}

/// A creation issues an identifier no repository has ever held: it lies
/// above every live id, and deletions never lower the counter, so a deleted
/// id can never be issued again.
pub proof fn lemma_issued_id_fresh(s: StoreView, op: Op)
    requires
        view_wf(s),
        s.counter < u64::MAX,
    ensures
        issued_id(s, op) matches Some(id) ==> !s.notes.dom().contains(id) && !s.tags.dom().contains(
            id,
        ) && !s.versions.dom().contains(id),
{
    if issued_id(s, op) is Some {
        lemma_op_counter_monotone(s, op);
    }
}

/// Identifiers issued by creations are strictly increasing along any run of
/// operations, whatever creations, updates and deletions of any entity kind
/// stand between them — so no identifier is ever issued twice.
pub proof fn lemma_issued_ids_strictly_increase(s: StoreView, op1: Op, mid: Seq<Op>, op2: Op)
    requires
        s.counter < u64::MAX,
        ops_within_counter(apply_op(s, op1), mid),
        apply_ops(apply_op(s, op1), mid).counter < u64::MAX,
        issued_id(s, op1) is Some,
        issued_id(apply_ops(apply_op(s, op1), mid), op2) is Some,
    ensures
        issued_id(apply_ops(apply_op(s, op1), mid), op2)->0 > issued_id(s, op1)->0,
{
    lemma_op_counter_monotone(s, op1);
    lemma_ops_counter_monotone(apply_op(s, op1), mid);
    lemma_op_counter_monotone(apply_ops(apply_op(s, op1), mid), op2);
}

// ---------------------------------------------------------------------------
// Update discipline
// ---------------------------------------------------------------------------
/// A successful update keeps the note's id, owner, creation time and tag
/// list, replaces title and content, and stamps the update time.
pub proof fn lemma_update_note_fields(
    s: StoreView,
    caller: Seq<char>,
    id: u64,
    title: Seq<char>,
    content: Seq<char>,
    now: u64,
)
    requires
        spec_update_note(s, caller, id, title, content, now).1 is Ok,
    ensures
        ({
            let step = spec_update_note(s, caller, id, title, content, now);
            let n1 = s.notes[id];
            let n2 = step.1->Ok_0;
            &&& n2.id == n1.id
            &&& n2.owner == n1.owner
            &&& n2.created_at == n1.created_at
            &&& n2.tag_ids == n1.tag_ids
            &&& n2.title == title
            &&& n2.content == content
            &&& n2.updated_at == Some(now)
            &&& step.0.notes == s.notes.insert(id, n2)
        }),
{
}

/// Under a clock that never runs backwards, a successful update moves the
/// note's update time forward: the new time is at least the previous update
/// time, or at least the creation time if the note was never updated.
pub proof fn lemma_update_note_time_monotone(
    s: StoreView,
    caller: Seq<char>,
    id: u64,
    title: Seq<char>,
    content: Seq<char>,
    now: u64,
)
    requires
        spec_update_note(s, caller, id, title, content, now).1 is Ok,
        match s.notes[id].updated_at {
            Some(u) => now >= u,
            None => now >= s.notes[id].created_at,
        },
    ensures
        ({
            let n2 = spec_update_note(s, caller, id, title, content, now).1->Ok_0;
            &&& n2.updated_at is Some
            &&& match s.notes[id].updated_at {
                Some(u) => n2.updated_at->0 >= u,
                None => n2.updated_at->0 >= s.notes[id].created_at,
            }
        }),
{
}

// ---------------------------------------------------------------------------
// Deletion discipline
// ---------------------------------------------------------------------------
/// Looking up a note after deleting it misses; and deleting an id that is
/// not there reports the miss and leaves the store exactly as it was.
pub proof fn lemma_delete_then_get(s: StoreView, caller: Seq<char>, id: u64)
    ensures
        ({
            let step = spec_delete_note(s, caller, id);
            &&& step.1 is Ok ==> spec_get_note(step.0, id) is Err && spec_get_note(step.0, id)->Err_0
                == ErrKind::NotFound
            &&& !s.notes.dom().contains(id) ==> step.0 == s && step.1 is Err && step.1->Err_0
                == ErrKind::NotFound
        }),
{
}

// ---------------------------------------------------------------------------
// Tag discipline
// ---------------------------------------------------------------------------
/// After a tag is created under a name, creating another tag under the same
/// name fails with the duplicate-name error, and the tag repository — its
/// size included — does not change.
pub proof fn lemma_duplicate_tag_rejected(s: StoreView, name: Seq<char>)
    requires
        s.counter < u64::MAX,
        spec_add_tag(s, name).1 is Ok,
    ensures
        ({
            let s1 = spec_add_tag(s, name).0;
            &&& spec_add_tag(s1, name).1 is Err
            &&& spec_add_tag(s1, name).1->Err_0 == ErrKind::DuplicateTagName
            &&& spec_add_tag(s1, name).0 == s1
            &&& spec_add_tag(s1, name).0.tags.dom().len() == s1.tags.dom().len()
        }),
{
    let s1 = spec_add_tag(s, name).0;
    let t = spec_add_tag(s, name).1->Ok_0;
    assert(s1.tags.dom().contains(t.id));
    assert(s1.tags[t.id].name == name);
    assert(tag_name_taken(s1, name));
}

/// Assigning a tag is idempotent in effect but not in result: a successful
/// assignment appends the tag id, a repeated assignment fails with the
/// already-assigned error and leaves the note — its tag list in particular —
/// unchanged, and on a well-formed store the list never holds duplicates.
pub proof fn lemma_assign_tag_idempotent(s: StoreView, note_id: u64, tag_id: u64)
    requires
        view_wf(s),
        spec_assign_tag(s, note_id, tag_id).1 is Ok,
    ensures
        ({
            let s1 = spec_assign_tag(s, note_id, tag_id).0;
            &&& s1.notes[note_id].tag_ids == s.notes[note_id].tag_ids.push(tag_id)
            &&& no_dup_u64(s1.notes[note_id].tag_ids)
            &&& spec_assign_tag(s1, note_id, tag_id).1 is Err
            &&& spec_assign_tag(s1, note_id, tag_id).1->Err_0 == ErrKind::AlreadyAssigned
            &&& spec_assign_tag(s1, note_id, tag_id).0 == s1
        }),
{
    let old_ids = s.notes[note_id].tag_ids;
    lemma_no_dup_push(old_ids, tag_id);
    let s1 = spec_assign_tag(s, note_id, tag_id).0;
    assert(s1.notes[note_id].tag_ids == old_ids.push(tag_id));
    assert(old_ids.push(tag_id)[old_ids.len() as int] == tag_id);
    assert(s1.notes[note_id].tag_ids.contains(tag_id));
}

// ---------------------------------------------------------------------------
// Version discipline
// ---------------------------------------------------------------------------
/// For a fixed note, version numbers run one, two, three, … in creation
/// order: a successful snapshot is numbered one more than the count of that
/// note's snapshots, and raises that count by exactly one — so the next
/// snapshot is numbered one higher again.
pub proof fn lemma_version_numbers_sequential(
    s: StoreView,
    note_id: u64,
    title: Seq<char>,
    content: Seq<char>,
    now: u64,
)
    requires
        view_wf(s),
        s.counter < u64::MAX,
        version_count(s.versions, note_id) < u64::MAX,
        spec_create_version(s, note_id, title, content, now).1 is Ok,
    ensures
        ({
            let step = spec_create_version(s, note_id, title, content, now);
            let v = step.1->Ok_0;
            &&& v.version_number == version_count(s.versions, note_id) + 1
            &&& version_count(step.0.versions, note_id) == version_count(s.versions, note_id) + 1
        }),
{
    let step = spec_create_version(s, note_id, title, content, now);
    let v = step.1->Ok_0;
    assert(!s.versions.dom().contains(v.id));
    s.versions.dom().lemma_len_filter(|k: u64| s.versions[k].note_id == note_id);
    assert(version_keys_for(step.0.versions, note_id) =~= version_keys_for(
        s.versions,
        note_id,
    ).insert(v.id));
    assert(!version_keys_for(s.versions, note_id).contains(v.id));
}

/// Reverting a note to a version that belongs to a different note fails with
/// the mismatch error and performs no mutation at all.
pub proof fn lemma_revert_mismatch_unchanged(s: StoreView, note_id: u64, version_id: u64, now: u64)
    requires
        s.versions.dom().contains(version_id),
        s.versions[version_id].note_id != note_id,
    ensures
        spec_revert(s, note_id, version_id, now).0 == s,
        spec_revert(s, note_id, version_id, now).1 is Err,
        spec_revert(s, note_id, version_id, now).1->Err_0 == ErrKind::VersionMismatch,
{
}

} // verus!

