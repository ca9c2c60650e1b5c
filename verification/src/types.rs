//! The entity records the store keeps — notes, tags and note versions — with
//! their payloads, their mathematical views, and the error taxonomy.

use vstd::prelude::*;

verus! {

/// Largest encoded record size, in bytes, that the store accepts for a single
/// record. Inserting anything larger fails deterministically.
pub const MAX_RECORD_SIZE: usize = 1024;

/// A stored note. `created_at` is set once at creation; `updated_at` stays
/// `None` until the first update; `tag_ids` holds weak references into the
/// tag repository, without duplicates.
#[derive(Debug)]
pub struct Note {
    pub id: u64,
    pub owner: String,
    pub title: String,
    pub content: String,
    pub created_at: u64,
    pub updated_at: Option<u64>,
    pub tag_ids: Vec<u64>,
}

/// A sequence of ids with no repeated element.
pub open spec fn no_dup_u64(s: Seq<u64>) -> bool {
    forall|i: int, j: int| 0 <= i < j < s.len() ==> s[i] != s[j]
}

/// The mathematical view of a `Note`: strings become character sequences.
pub struct NoteView {
    pub id: u64,
    pub owner: Seq<char>,
    pub title: Seq<char>,
    pub content: Seq<char>,
    pub created_at: u64,
    pub updated_at: Option<u64>,
    pub tag_ids: Seq<u64>,
}

impl View for Note {
    type V = NoteView;

    open spec fn view(&self) -> NoteView {
        NoteView {
            id: self.id,
            owner: self.owner@,
            title: self.title@,
            content: self.content@,
            created_at: self.created_at,
            updated_at: self.updated_at,
            tag_ids: self.tag_ids@,
        }
    }
}

/// A stored tag: a name shared by any notes that reference the tag's id.
#[derive(Debug)]
pub struct Tag {
    pub id: u64,
    pub name: String,
}

/// The mathematical view of a `Tag`.
pub struct TagView {
    pub id: u64,
    pub name: Seq<char>,
}

impl View for Tag {
    type V = TagView;

    open spec fn view(&self) -> TagView {
        TagView { id: self.id, name: self.name@ }
    }
}

/// A stored snapshot of a note's title and content. For a fixed `note_id`,
/// `version_number` counts the snapshots of that note in creation order,
/// starting at one. Versions are never mutated after creation.
#[derive(Debug)]
pub struct NoteVersion {
    pub id: u64,
    pub note_id: u64,
    pub title: String,
    pub content: String,
    pub version_number: u64,
    pub created_at: u64,
}

/// The mathematical view of a `NoteVersion`.
pub struct NoteVersionView {
    pub id: u64,
    pub note_id: u64,
    pub title: Seq<char>,
    pub content: Seq<char>,
    pub version_number: u64,
    pub created_at: u64,
}

impl View for NoteVersion {
    type V = NoteVersionView;

    open spec fn view(&self) -> NoteVersionView {
        NoteVersionView {
            id: self.id,
            note_id: self.note_id,
            title: self.title@,
            content: self.content@,
            version_number: self.version_number,
            created_at: self.created_at,
        }
    }
}

/// The caller-supplied fields for creating or updating a note.
#[derive(Debug)]
pub struct NotePayload {
    pub title: String,
    pub content: String,
}

/// The caller-supplied fields for creating or renaming a tag.
#[derive(Debug)]
pub struct TagPayload {
    pub name: String,
}

/// The caller-supplied fields for snapshotting a note.
#[derive(Debug)]
pub struct NoteVersionPayload {
    pub title: String,
    pub content: String,
}

/// Every failure an operation can report. Errors are ordinary results: no
/// operation mutates the store when it returns one of these.
#[derive(Debug)]
pub enum Error {
    /// A lookup by id missed, or a query's filtered result set was empty.
    NotFound { msg: String },
    /// The payload failed a structural check (title length, content word
    /// count, or an encoded record over `MAX_RECORD_SIZE`).
    InvalidInput { msg: String },
    /// The payload failed the creation-time validity check.
    ValidationFailed { content: String },
    /// The caller is not the recorded owner of the note.
    AuthenticationFailed { msg: String },
    /// A tag with the requested name already exists.
    DuplicateTagName { msg: String },
    /// The tag is already assigned to the note.
    AlreadyAssigned { msg: String },
    /// The version to revert to belongs to a different note.
    VersionMismatch { msg: String },
}

/// The error taxonomy without its human-readable messages, for stating
/// transition results in specifications.
pub enum ErrKind {
    NotFound,
    InvalidInput,
    ValidationFailed,
    AuthenticationFailed,
    DuplicateTagName,
    AlreadyAssigned,
    VersionMismatch,
}

/// Which kind of failure an error value reports.
pub open spec fn kind_of(e: Error) -> ErrKind {
    match e {
        Error::NotFound { .. } => ErrKind::NotFound,
        Error::InvalidInput { .. } => ErrKind::InvalidInput,
        Error::ValidationFailed { .. } => ErrKind::ValidationFailed,
        Error::AuthenticationFailed { .. } => ErrKind::AuthenticationFailed,
        Error::DuplicateTagName { .. } => ErrKind::DuplicateTagName,
        Error::AlreadyAssigned { .. } => ErrKind::AlreadyAssigned,
        Error::VersionMismatch { .. } => ErrKind::VersionMismatch,
    }
}

impl Error {
    /// The human-readable message the error carries.
    pub fn message(&self) -> (msg: &String)
        ensures
            msg@ == self.spec_message(),
    {
        match self {
            Error::NotFound { msg } => msg,
            Error::InvalidInput { msg } => msg,
            Error::ValidationFailed { content } => content,
            Error::AuthenticationFailed { msg } => msg,
            Error::DuplicateTagName { msg } => msg,
            Error::AlreadyAssigned { msg } => msg,
            Error::VersionMismatch { msg } => msg,
        }
    }

    /// The message as a character sequence.
    pub open spec fn spec_message(&self) -> Seq<char> {
        match self {
            Error::NotFound { msg } => msg@,
            Error::InvalidInput { msg } => msg@,
            Error::ValidationFailed { content } => content@,
            Error::AuthenticationFailed { msg } => msg@,
            Error::DuplicateTagName { msg } => msg@,
            Error::AlreadyAssigned { msg } => msg@,
            Error::VersionMismatch { msg } => msg@,
        }
    }
}

} // verus!
