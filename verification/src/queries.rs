//! The query layer: every read that spans a repository is a full ascending
//! scan filtered by a pure predicate. Queries that find nothing report the
//! miss as an error, the same shape as a failed lookup by id.

use vstd::prelude::*;

use crate::store::{
    lemma_notes_listed_count, notes_listed, some_note_matches, tags_listed, vec_contains_u64,
    Store,
};
use crate::types::{Error, Note, NoteView, Tag, TagView};
use crate::utils::{contains_substring, decimal_digits, str_contains, u64_to_decimal};

verus! {

/// The note has `tag_id` among its tag references.
pub open spec fn note_has_tag(n: NoteView, tag_id: u64) -> bool {
    n.tag_ids.contains(tag_id)
}

/// `ns` lists exactly the notes of `m` that reference `tag_id`, ascending.
pub open spec fn tag_notes_listed(m: Map<u64, NoteView>, tag_id: u64, ns: Seq<NoteView>) -> bool {
    notes_listed(m, |n: NoteView| note_has_tag(n, tag_id), ns)
}

/// The note's title or content holds `query` as a substring.
pub open spec fn note_matches_query(n: NoteView, query: Seq<char>) -> bool {
    contains_substring(n.title, query) || contains_substring(n.content, query)
}

/// The note has been updated, and its update time lies in the closed range.
pub open spec fn note_updated_within(n: NoteView, start_time: u64, end_time: u64) -> bool {
    match n.updated_at {
        Some(u) => start_time <= u <= end_time,
        None => false,
    }
}

impl Store {
    /// Returns every note, in ascending id order; an empty repository is
    /// reported as a miss.
    pub fn get_all_notes(&self) -> (r: Result<Vec<Note>, Error>)
        ensures
            (r is Ok <==> some_note_matches(self@.notes, |n: NoteView| true)),
            r matches Ok(v) ==> notes_listed(
                self@.notes,
                |n: NoteView| true,
                v@.map_values(|x: Note| x@),
            ),
            r matches Err(e) ==> e is NotFound && e.spec_message() == "No notes found."@,
    {
        let out = self.filter_notes(|n: &Note| -> (b: bool) ensures b == true { true }, Ghost(|n: NoteView| true));
        if out.len() == 0 {
            proof {
                let osq = out@.map_values(|x: Note| x@);
                assert(osq.len() == 0);
            }
            Err(Error::NotFound { msg: "No notes found.".to_owned() })
        } else {
            proof {
                let osq = out@.map_values(|x: Note| x@);
                assert(self@.notes.contains_pair(osq[0].id, osq[0]));
            }
            Ok(out)
        }
    }

    /// Returns the notes that reference `tag_id`, in ascending id order; no
    /// match is reported as a miss.
    pub fn get_notes_by_tag(&self, tag_id: u64) -> (r: Result<Vec<Note>, Error>)
        ensures
            (r is Ok <==> some_note_matches(self@.notes, |n: NoteView| note_has_tag(n, tag_id))),
            r matches Ok(v) ==> notes_listed(
                self@.notes,
                |n: NoteView| note_has_tag(n, tag_id),
                v@.map_values(|x: Note| x@),
            ),
            r matches Err(e) ==> e is NotFound && e.spec_message()
                == "No notes found for this tag"@,
    {
        let out = self.filter_notes(
            |n: &Note| -> (b: bool) ensures b == note_has_tag(n@, tag_id) {
                vec_contains_u64(&n.tag_ids, tag_id)
            },
            Ghost(|n: NoteView| note_has_tag(n, tag_id)),
        );
        if out.len() == 0 {
            proof {
                let osq = out@.map_values(|x: Note| x@);
                assert(osq.len() == 0);
            }
            Err(Error::NotFound { msg: "No notes found for this tag".to_owned() })
        } else {
            proof {
                let osq = out@.map_values(|x: Note| x@);
                assert(self@.notes.contains_pair(osq[0].id, osq[0]));
            }
            Ok(out)
        }
    }

    /// Counts the notes that reference `tag_id`. A zero count is an ordinary
    /// answer, not a miss.
    pub fn count_notes_by_tag(&self, tag_id: u64) -> (r: Result<usize, Error>)
        ensures
            r matches Ok(c) && c == self@.notes.dom().filter(
                |k: u64| note_has_tag(self@.notes[k], tag_id),
            ).len(),
    {
        let out = self.filter_notes(
            |n: &Note| -> (b: bool) ensures b == note_has_tag(n@, tag_id) {
                vec_contains_u64(&n.tag_ids, tag_id)
            },
            Ghost(|n: NoteView| note_has_tag(n, tag_id)),
        );
        proof {
            use_type_invariant(&*self);
            self.lemma_view_wf();
            lemma_notes_listed_count(
                self@.notes,
                |n: NoteView| note_has_tag(n, tag_id),
                out@.map_values(|x: Note| x@),
            );
            assert(self@.notes.dom().filter(
                |k: u64| (|n: NoteView| note_has_tag(n, tag_id))(self@.notes[k]),
            ) =~= self@.notes.dom().filter(|k: u64| note_has_tag(self@.notes[k], tag_id)));
        }
        Ok(out.len())
    }

    /// Returns the titles of the notes that reference `tag_id`, in ascending
    /// note id order; no match is reported as a miss.
    pub fn list_note_titles_by_tag(&self, tag_id: u64) -> (r: Result<Vec<String>, Error>)
        ensures
            (r is Ok <==> some_note_matches(self@.notes, |n: NoteView| note_has_tag(n, tag_id))),
            r matches Ok(v) ==> exists|ns: Seq<NoteView>|
                #[trigger] tag_notes_listed(self@.notes, tag_id, ns) && v@.map_values(
                    |t: String| t@,
                ) =~= ns.map_values(|n: NoteView| n.title),
            r matches Err(e) ==> e is NotFound && e.spec_message()
                == "No notes found for this tag"@,
    {
        let out = self.filter_notes(
            |n: &Note| -> (b: bool) ensures b == note_has_tag(n@, tag_id) {
                vec_contains_u64(&n.tag_ids, tag_id)
            },
            Ghost(|n: NoteView| note_has_tag(n, tag_id)),
        );
        if out.len() == 0 {
            proof {
                let osq = out@.map_values(|x: Note| x@);
                assert(osq.len() == 0);
            }
            return Err(Error::NotFound { msg: "No notes found for this tag".to_owned() });
        }
        proof {
            let osq = out@.map_values(|x: Note| x@);
            assert(self@.notes.contains_pair(osq[0].id, osq[0]));
        }
        let mut titles: Vec<String> = Vec::new();
        let count = out.len();
        for j in 0..count
            invariant
                count == out@.len(),
                titles@.len() == j,
                forall|a: int| 0 <= a < j ==> (#[trigger] titles@[a])@ == out@[a]@.title,
        {
            titles.push(out[j].title.clone());
        }
        proof {
            let osq = out@.map_values(|x: Note| x@);
            assert(tag_notes_listed(self@.notes, tag_id, osq));
            assert(titles@.map_values(|t: String| t@) =~= osq.map_values(|n: NoteView| n.title));
        }
        Ok(titles)
    }

    /// Returns the notes whose title or content holds `query` as a
    /// substring, in ascending id order; no match is reported as a miss.
    pub fn search_notes(&self, query: String) -> (r: Result<Vec<Note>, Error>)
        ensures
            (r is Ok <==> some_note_matches(
                self@.notes,
                |n: NoteView| note_matches_query(n, query@),
            )),
            r matches Ok(v) ==> notes_listed(
                self@.notes,
                |n: NoteView| note_matches_query(n, query@),
                v@.map_values(|x: Note| x@),
            ),
            r matches Err(e) ==> e is NotFound && e.spec_message()
                == "No notes found matching the query: '"@ + query@ + "'"@,
    {
        let q = query.as_str();
        let out = self.filter_notes(
            |n: &Note| -> (b: bool) ensures b == note_matches_query(n@, query@) {
                str_contains(n.title.as_str(), q) || str_contains(n.content.as_str(), q)
            },
            Ghost(|n: NoteView| note_matches_query(n, query@)),
        );
        if out.len() == 0 {
            proof {
                let osq = out@.map_values(|x: Note| x@);
                assert(osq.len() == 0);
            }
            let mut msg = "No notes found matching the query: '".to_owned();
            msg.append(query.as_str());
            msg.append("'");
            Err(Error::NotFound { msg })
        } else {
            proof {
                let osq = out@.map_values(|x: Note| x@);
                assert(self@.notes.contains_pair(osq[0].id, osq[0]));
            }
            Ok(out)
        }
    }

    /// Returns the notes updated within the closed time range, in ascending
    /// id order; notes never updated are excluded, and no match is reported
    /// as a miss.
    pub fn get_notes_updated_within_range(&self, start_time: u64, end_time: u64) -> (r: Result<
        Vec<Note>,
        Error,
    >)
        ensures
            (r is Ok <==> some_note_matches(
                self@.notes,
                |n: NoteView| note_updated_within(n, start_time, end_time),
            )),
            r matches Ok(v) ==> notes_listed(
                self@.notes,
                |n: NoteView| note_updated_within(n, start_time, end_time),
                v@.map_values(|x: Note| x@),
            ),
            r matches Err(e) ==> e is NotFound && e.spec_message()
                == "No notes found within the specified time range"@,
    {
        let out = self.filter_notes(
            |n: &Note| -> (b: bool) ensures b == note_updated_within(n@, start_time, end_time) {
                match n.updated_at {
                    Some(u) => start_time <= u && u <= end_time,
                    None => false,
                }
            },
            Ghost(|n: NoteView| note_updated_within(n, start_time, end_time)),
        );
        if out.len() == 0 {
            proof {
                let osq = out@.map_values(|x: Note| x@);
                assert(osq.len() == 0);
            }
            Err(
                Error::NotFound {
                    msg: "No notes found within the specified time range".to_owned(),
                },
            )
        } else {
            proof {
                let osq = out@.map_values(|x: Note| x@);
                assert(self@.notes.contains_pair(osq[0].id, osq[0]));
            }
            Ok(out)
        }
    }

    /// Returns the tags the note under `note_id` references, in ascending tag
    /// id order; a note with no tags yields an empty list, but an absent note
    /// is a miss.
    pub fn get_tags_for_note(&self, note_id: u64) -> (r: Result<Vec<Tag>, Error>)
        ensures
            (r is Ok <==> self@.notes.dom().contains(note_id)),
            r matches Ok(v) ==> tags_listed(
                self@.tags,
                |t: TagView| self@.notes[note_id].tag_ids.contains(t.id),
                v@.map_values(|x: Tag| x@),
            ),
            r matches Err(e) ==> e is NotFound && e.spec_message() == "Note with id="@
                + decimal_digits(note_id as nat) + " not found"@,
    {
        let note = match crate::store::_get_note(self, &note_id) {
            Some(n) => n,
            None => {
                let mut msg = "Note with id=".to_owned();
                msg.append(u64_to_decimal(note_id).as_str());
                msg.append(" not found");
                return Err(Error::NotFound { msg });
            },
        };
        let tag_ids = note.tag_ids;
        let ghost note_v = self@.notes[note_id];
        proof {
            assert(tag_ids@ == note_v.tag_ids);
        }
        let out = self.filter_tags(
            |t: &Tag| -> (b: bool) ensures b == tag_ids@.contains(t@.id) {
                vec_contains_u64(&tag_ids, t.id)
            },
            Ghost(|t: TagView| note_v.tag_ids.contains(t.id)),
        );
        Ok(out)
    }
}

} // verus!
