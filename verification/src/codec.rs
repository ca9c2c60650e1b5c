//! The record codec: every entity is serialized to a canonical byte form
//! before it enters the key-value engine, and parsed back when it leaves.
//!
//! The format is deterministic: integers are eight little-endian bytes,
//! strings are a length prefix followed by their UTF-8 bytes, an optional
//! integer is a presence byte followed by the value, and an id list is a
//! count followed by its elements. Parsing validates everything it reads and
//! consumes the whole buffer, so a buffer parses successfully exactly when it
//! is the encoding of some entity — both round-trip directions are proved
//! below.

use vstd::bytes::{
    lemma_auto_spec_u64_to_from_le_bytes, spec_u64_from_le_bytes, spec_u64_to_le_bytes,
    u64_from_le_bytes, u64_to_le_bytes,
};
use vstd::prelude::*;
use vstd::slice::{slice_index_get, slice_subrange, slice_to_vec};
use vstd::string::StrSliceExecFns;
use vstd::utf8::{
    decode_utf8, decode_utf8_encode_utf8, encode_utf8, encode_utf8_decode_utf8,
    encode_utf8_valid_utf8, valid_utf8,
};

use crate::types::{Note, NoteVersion, NoteVersionView, NoteView, Tag, TagView};

verus! {

// ---------------------------------------------------------------------------
// Specification-level encoders
// ---------------------------------------------------------------------------
/// Eight little-endian bytes.
pub open spec fn enc_u64(v: u64) -> Seq<u8> {
    spec_u64_to_le_bytes(v)
}

/// A length prefix followed by the raw bytes.
pub open spec fn enc_bytes(b: Seq<u8>) -> Seq<u8>
    recommends
        b.len() <= u64::MAX,
{
    enc_u64(b.len() as u64) + b
}

/// A length prefix followed by the string's UTF-8 bytes.
pub open spec fn enc_str(s: Seq<char>) -> Seq<u8> {
    enc_bytes(encode_utf8(s))
}

/// A presence byte, then the value's eight bytes when present.
pub open spec fn enc_opt_u64(o: Option<u64>) -> Seq<u8> {
    match o {
        None => seq![0u8],
        Some(v) => seq![1u8] + enc_u64(v),
    }
}

/// The elements of an id list, one after the other.
pub open spec fn enc_u64_seq_items(v: Seq<u64>) -> Seq<u8>
    decreases v.len(),
{
    if v.len() == 0 {
        Seq::empty()
    } else {
        enc_u64(v[0]) + enc_u64_seq_items(v.skip(1))
    }
}

/// A count prefix followed by the elements of an id list.
pub open spec fn enc_u64_seq(v: Seq<u64>) -> Seq<u8>
    recommends
        v.len() <= u64::MAX,
{
    enc_u64(v.len() as u64) + enc_u64_seq_items(v)
}

/// A string short enough for its byte length to fit the length prefix. Every
/// string held in memory satisfies this.
pub open spec fn str_encodable(s: Seq<char>) -> bool {
    encode_utf8(s).len() <= u64::MAX
}

/// The note's fields fit the format's length and count prefixes.
pub open spec fn note_encodable(n: NoteView) -> bool {
    &&& str_encodable(n.owner)
    &&& str_encodable(n.title)
    &&& str_encodable(n.content)
    &&& n.tag_ids.len() <= u64::MAX
}

/// The tag's field fits the format's length prefix.
pub open spec fn tag_encodable(t: TagView) -> bool {
    str_encodable(t.name)
}

/// The version's fields fit the format's length prefixes.
pub open spec fn version_encodable(v: NoteVersionView) -> bool {
    &&& str_encodable(v.title)
    &&& str_encodable(v.content)
}

/// The canonical byte form of a note.
pub open spec fn enc_note(n: NoteView) -> Seq<u8> {
    enc_u64(n.id) + enc_str(n.owner) + enc_str(n.title) + enc_str(n.content) + enc_u64(
        n.created_at,
    ) + enc_opt_u64(n.updated_at) + enc_u64_seq(n.tag_ids)
}

/// The canonical byte form of a tag.
pub open spec fn enc_tag(t: TagView) -> Seq<u8> {
    enc_u64(t.id) + enc_str(t.name)
}

/// The canonical byte form of a note version.
pub open spec fn enc_version(v: NoteVersionView) -> Seq<u8> {
    enc_u64(v.id) + enc_u64(v.note_id) + enc_str(v.title) + enc_str(v.content) + enc_u64(
        v.version_number,
    ) + enc_u64(v.created_at)
}

// ---------------------------------------------------------------------------
// Specification-level parsers: each returns the value and the remainder
// ---------------------------------------------------------------------------
/// Reads eight little-endian bytes.
pub open spec fn parse_u64(b: Seq<u8>) -> Option<(u64, Seq<u8>)> {
    if b.len() < 8 {
        None
    } else {
        Some((spec_u64_from_le_bytes(b.take(8)), b.skip(8)))
    }
}

/// Reads a length prefix and that many raw bytes.
pub open spec fn parse_bytes(b: Seq<u8>) -> Option<(Seq<u8>, Seq<u8>)> {
    match parse_u64(b) {
        Some((n, r)) => if r.len() >= n {
            Some((r.take(n as int), r.skip(n as int)))
        } else {
            None
        },
        None => None,
    }
}

/// Reads a length-prefixed byte run and decodes it as UTF-8.
pub open spec fn parse_str(b: Seq<u8>) -> Option<(Seq<char>, Seq<u8>)> {
    match parse_bytes(b) {
        Some((x, r)) => if valid_utf8(x) {
            Some((decode_utf8(x), r))
        } else {
            None
        },
        None => None,
    }
}

/// Reads a presence byte and, when it says so, a value.
pub open spec fn parse_opt_u64(b: Seq<u8>) -> Option<(Option<u64>, Seq<u8>)> {
    if b.len() < 1 {
        None
    } else if b[0] == 0u8 {
        Some((None, b.skip(1)))
    } else if b[0] == 1u8 {
        match parse_u64(b.skip(1)) {
            Some((v, r)) => Some((Some(v), r)),
            None => None,
        }
    } else {
        None
    }
}

/// Reads exactly `n` values.
pub open spec fn parse_u64_seq_items(b: Seq<u8>, n: u64) -> Option<(Seq<u64>, Seq<u8>)>
    decreases n,
{
    if n == 0 {
        Some((Seq::empty(), b))
    } else {
        match parse_u64(b) {
            Some((v, r)) => match parse_u64_seq_items(r, (n - 1) as u64) {
                Some((vs, r2)) => Some((seq![v] + vs, r2)),
                None => None,
            },
            None => None,
        }
    }
}

/// Reads a count prefix and that many values.
pub open spec fn parse_u64_seq(b: Seq<u8>) -> Option<(Seq<u64>, Seq<u8>)> {
    match parse_u64(b) {
        Some((n, r)) => parse_u64_seq_items(r, n),
        None => None,
    }
}

/// Parses a whole buffer as a note; the buffer must be consumed exactly.
pub open spec fn parse_note(b: Seq<u8>) -> Option<NoteView> {
    match parse_u64(b) {
        None => None,
        Some((id, b1)) => match parse_str(b1) {
            None => None,
            Some((owner, b2)) => match parse_str(b2) {
                None => None,
                Some((title, b3)) => match parse_str(b3) {
                    None => None,
                    Some((content, b4)) => match parse_u64(b4) {
                        None => None,
                        Some((created_at, b5)) => match parse_opt_u64(b5) {
                            None => None,
                            Some((updated_at, b6)) => match parse_u64_seq(b6) {
                                None => None,
                                Some((tag_ids, b7)) => if b7.len() == 0 {
                                    Some(
                                        NoteView {
                                            id,
                                            owner,
                                            title,
                                            content,
                                            created_at,
                                            updated_at,
                                            tag_ids,
                                        },
                                    )
                                } else {
                                    None
                                },
                            },
                        },
                    },
                },
            },
        },
    }
}

/// Parses a whole buffer as a tag; the buffer must be consumed exactly.
pub open spec fn parse_tag(b: Seq<u8>) -> Option<TagView> {
    match parse_u64(b) {
        None => None,
        Some((id, b1)) => match parse_str(b1) {
            None => None,
            Some((name, b2)) => if b2.len() == 0 {
                Some(TagView { id, name })
            } else {
                None
            },
        },
    }
}

/// Parses a whole buffer as a note version; the buffer must be consumed
/// exactly.
pub open spec fn parse_version(b: Seq<u8>) -> Option<NoteVersionView> {
    match parse_u64(b) {
        None => None,
        Some((id, b1)) => match parse_u64(b1) {
            None => None,
            Some((note_id, b2)) => match parse_str(b2) {
                None => None,
                Some((title, b3)) => match parse_str(b3) {
                    None => None,
                    Some((content, b4)) => match parse_u64(b4) {
                        None => None,
                        Some((version_number, b5)) => match parse_u64(b5) {
                            None => None,
                            Some((created_at, b6)) => if b6.len() == 0 {
                                Some(
                                    NoteVersionView {
                                        id,
                                        note_id,
                                        title,
                                        content,
                                        version_number,
                                        created_at,
                                    },
                                )
                            } else {
                                None
                            },
                        },
                    },
                },
            },
        },
    }
}

/// An id list's items encode to eight bytes per element.
pub proof fn lemma_enc_u64_seq_items_len(v: Seq<u64>)
    ensures
        enc_u64_seq_items(v).len() == 8 * v.len(),
    decreases v.len(),
{
    lemma_auto_spec_u64_to_from_le_bytes();
    if v.len() > 0 {
        lemma_enc_u64_seq_items_len(v.skip(1));
    }
}

/// A note's encoded length: a fixed frame, the three strings' UTF-8 bytes,
/// one or nine bytes for the optional update time, and eight bytes per tag
/// reference.
pub proof fn lemma_enc_note_len(n: NoteView)
    ensures
        enc_note(n).len() == 48 + encode_utf8(n.owner).len() + encode_utf8(n.title).len()
            + encode_utf8(n.content).len() + (if n.updated_at is Some {
            9int
        } else {
            1int
        }) + 8 * n.tag_ids.len(),
{
    lemma_auto_spec_u64_to_from_le_bytes();
    lemma_enc_u64_seq_items_len(n.tag_ids);
}

// ---------------------------------------------------------------------------
// Round-trip lemmas, combinator by combinator
// ---------------------------------------------------------------------------
/// Parsing an encoded value yields the value and the remainder.
pub proof fn lemma_parse_u64_enc(v: u64, rest: Seq<u8>)
    ensures
        parse_u64(enc_u64(v) + rest) == Some((v, rest)),
{
    lemma_auto_spec_u64_to_from_le_bytes();
    assert((enc_u64(v) + rest).take(8) =~= enc_u64(v));
    assert((enc_u64(v) + rest).skip(8) =~= rest);
}

/// A successful parse came from the encoding of its result.
pub proof fn lemma_enc_parse_u64(b: Seq<u8>)
    requires
        parse_u64(b) is Some,
    ensures
        ({
            let t = parse_u64(b)->0;
            enc_u64(t.0) + t.1 == b
        }),
{
    lemma_auto_spec_u64_to_from_le_bytes();
    let t = parse_u64(b)->0;
    assert(enc_u64(t.0) == b.take(8));
    assert(b.take(8) + b.skip(8) =~= b);
}

/// Parsing an encoded byte run yields the run and the remainder.
pub proof fn lemma_parse_bytes_enc(x: Seq<u8>, rest: Seq<u8>)
    requires
        x.len() <= u64::MAX,
    ensures
        parse_bytes(enc_bytes(x) + rest) == Some((x, rest)),
{
    let b = enc_bytes(x) + rest;
    assert(b =~= enc_u64(x.len() as u64) + (x + rest));
    lemma_parse_u64_enc(x.len() as u64, x + rest);
    assert((x + rest).take(x.len() as int) =~= x);
    assert((x + rest).skip(x.len() as int) =~= rest);
}

/// A successful byte-run parse came from the encoding of its result.
pub proof fn lemma_enc_parse_bytes(b: Seq<u8>)
    requires
        parse_bytes(b) is Some,
    ensures
        ({
            let t = parse_bytes(b)->0;
            t.0.len() <= u64::MAX && enc_bytes(t.0) + t.1 == b
        }),
{
    lemma_enc_parse_u64(b);
    let nt = parse_u64(b)->0;
    let t = parse_bytes(b)->0;
    assert(t.0.len() == nt.0);
    assert(t.0.len() as u64 == nt.0);
    assert(enc_bytes(t.0) + t.1 =~= enc_u64(nt.0) + (t.0 + t.1));
    assert(t.0 + t.1 =~= nt.1);
}

/// Parsing an encoded string yields the string and the remainder.
pub proof fn lemma_parse_str_enc(s: Seq<char>, rest: Seq<u8>)
    requires
        str_encodable(s),
    ensures
        parse_str(enc_str(s) + rest) == Some((s, rest)),
{
    encode_utf8_valid_utf8(s);
    encode_utf8_decode_utf8(s);
    lemma_parse_bytes_enc(encode_utf8(s), rest);
}

/// A successful string parse came from the encoding of its result.
pub proof fn lemma_enc_parse_str(b: Seq<u8>)
    requires
        parse_str(b) is Some,
    ensures
        ({
            let t = parse_str(b)->0;
            str_encodable(t.0) && enc_str(t.0) + t.1 == b
        }),
{
    lemma_enc_parse_bytes(b);
    let bt = parse_bytes(b)->0;
    decode_utf8_encode_utf8(bt.0);
    assert(encode_utf8(decode_utf8(bt.0)) == bt.0);
}

/// Parsing an encoded optional value yields it and the remainder.
pub proof fn lemma_parse_opt_u64_enc(o: Option<u64>, rest: Seq<u8>)
    ensures
        parse_opt_u64(enc_opt_u64(o) + rest) == Some((o, rest)),
{
    match o {
        None => {
            let b = enc_opt_u64(o) + rest;
            assert(b[0] == 0u8);
            assert(b.skip(1) =~= rest);
        },
        Some(v) => {
            let b = enc_opt_u64(o) + rest;
            assert(b[0] == 1u8);
            assert(b.skip(1) =~= enc_u64(v) + rest);
            lemma_parse_u64_enc(v, rest);
        },
    }
}

/// A successful optional-value parse came from the encoding of its result.
pub proof fn lemma_enc_parse_opt_u64(b: Seq<u8>)
    requires
        parse_opt_u64(b) is Some,
    ensures
        ({
            let t = parse_opt_u64(b)->0;
            enc_opt_u64(t.0) + t.1 == b
        }),
{
    let t = parse_opt_u64(b)->0;
    if b[0] == 0u8 {
        assert(enc_opt_u64(t.0) + t.1 =~= seq![0u8] + b.skip(1));
        assert(seq![0u8] + b.skip(1) =~= b);
    } else {
        lemma_enc_parse_u64(b.skip(1));
        let ut = parse_u64(b.skip(1))->0;
        assert(enc_opt_u64(t.0) + t.1 =~= seq![1u8] + (enc_u64(ut.0) + ut.1));
        assert(seq![1u8] + b.skip(1) =~= b);
    }
}

/// Parsing encoded list items yields the items and the remainder.
pub proof fn lemma_parse_u64_seq_items_enc(v: Seq<u64>, rest: Seq<u8>)
    requires
        v.len() <= u64::MAX,
    ensures
        parse_u64_seq_items(enc_u64_seq_items(v) + rest, v.len() as u64) == Some((v, rest)),
    decreases v.len(),
{
    if v.len() == 0 {
        assert(enc_u64_seq_items(v) + rest =~= rest);
        assert(v =~= Seq::<u64>::empty());
    } else {
        let tail = v.skip(1);
        lemma_parse_u64_seq_items_enc(tail, rest);
        assert(enc_u64_seq_items(v) + rest =~= enc_u64(v[0]) + (enc_u64_seq_items(tail) + rest));
        lemma_parse_u64_enc(v[0], enc_u64_seq_items(tail) + rest);
        assert(seq![v[0]] + tail =~= v);
    }
}

/// A successful list-items parse came from the encoding of its result.
pub proof fn lemma_enc_parse_u64_seq_items(b: Seq<u8>, n: u64)
    requires
        parse_u64_seq_items(b, n) is Some,
    ensures
        ({
            let t = parse_u64_seq_items(b, n)->0;
            t.0.len() == n && enc_u64_seq_items(t.0) + t.1 == b
        }),
    decreases n,
{
    let t = parse_u64_seq_items(b, n)->0;
    if n == 0 {
        assert(enc_u64_seq_items(t.0) + t.1 =~= b);
    } else {
        lemma_enc_parse_u64(b);
        let head = parse_u64(b)->0;
        lemma_enc_parse_u64_seq_items(head.1, (n - 1) as u64);
        let rec = parse_u64_seq_items(head.1, (n - 1) as u64)->0;
        assert(t.0 == seq![head.0] + rec.0);
        assert(t.0[0] == head.0);
        assert(t.0.skip(1) =~= rec.0);
        assert(enc_u64_seq_items(t.0) + t.1 =~= enc_u64(head.0) + (enc_u64_seq_items(rec.0)
            + rec.1));
    }
}

/// Parsing an encoded id list yields the list and the remainder.
pub proof fn lemma_parse_u64_seq_enc(v: Seq<u64>, rest: Seq<u8>)
    requires
        v.len() <= u64::MAX,
    ensures
        parse_u64_seq(enc_u64_seq(v) + rest) == Some((v, rest)),
{
    assert(enc_u64_seq(v) + rest =~= enc_u64(v.len() as u64) + (enc_u64_seq_items(v) + rest));
    lemma_parse_u64_enc(v.len() as u64, enc_u64_seq_items(v) + rest);
    lemma_parse_u64_seq_items_enc(v, rest);
}

/// A successful id-list parse came from the encoding of its result.
pub proof fn lemma_enc_parse_u64_seq(b: Seq<u8>)
    requires
        parse_u64_seq(b) is Some,
    ensures
        ({
            let t = parse_u64_seq(b)->0;
            t.0.len() <= u64::MAX && enc_u64_seq(t.0) + t.1 == b
        }),
{
    lemma_enc_parse_u64(b);
    let head = parse_u64(b)->0;
    lemma_enc_parse_u64_seq_items(head.1, head.0);
    let t = parse_u64_seq(b)->0;
    assert(t.0.len() as u64 == head.0);
    assert(enc_u64_seq(t.0) + t.1 =~= enc_u64(head.0) + (enc_u64_seq_items(t.0) + t.1));
}

// ---------------------------------------------------------------------------
// Round-trip lemmas for whole entities
// ---------------------------------------------------------------------------
/// Decoding the encoding of a note gives the note back.
pub proof fn lemma_parse_note_enc(n: NoteView)
    requires
        note_encodable(n),
    ensures
        parse_note(enc_note(n)) == Some(n),
{
    let r6 = enc_u64_seq(n.tag_ids);
    let r5 = enc_opt_u64(n.updated_at) + r6;
    let r4 = enc_u64(n.created_at) + r5;
    let r3 = enc_str(n.content) + r4;
    let r2 = enc_str(n.title) + r3;
    let r1 = enc_str(n.owner) + r2;
    assert(enc_note(n) =~= enc_u64(n.id) + r1);
    lemma_parse_u64_enc(n.id, r1);
    lemma_parse_str_enc(n.owner, r2);
    lemma_parse_str_enc(n.title, r3);
    lemma_parse_str_enc(n.content, r4);
    lemma_parse_u64_enc(n.created_at, r5);
    lemma_parse_opt_u64_enc(n.updated_at, r6);
    assert(r6 =~= enc_u64_seq(n.tag_ids) + Seq::<u8>::empty());
    lemma_parse_u64_seq_enc(n.tag_ids, Seq::<u8>::empty());
}

/// A buffer that parses as a note is that note's encoding.
#[verifier::rlimit(100)]
pub proof fn lemma_enc_parse_note(b: Seq<u8>)
    requires
        parse_note(b) is Some,
    ensures
        ({
            let n = parse_note(b)->0;
            note_encodable(n) && enc_note(n) == b
        }),
{
    let n = parse_note(b)->0;
    lemma_enc_parse_u64(b);
    let t1 = parse_u64(b)->0;
    lemma_enc_parse_str(t1.1);
    let t2 = parse_str(t1.1)->0;
    lemma_enc_parse_str(t2.1);
    let t3 = parse_str(t2.1)->0;
    lemma_enc_parse_str(t3.1);
    let t4 = parse_str(t3.1)->0;
    lemma_enc_parse_u64(t4.1);
    let t5 = parse_u64(t4.1)->0;
    lemma_enc_parse_opt_u64(t5.1);
    let t6 = parse_opt_u64(t5.1)->0;
    lemma_enc_parse_u64_seq(t6.1);
    let t7 = parse_u64_seq(t6.1)->0;
    assert(t7.1.len() == 0);
    assert(enc_u64_seq(n.tag_ids) + t7.1 =~= enc_u64_seq(n.tag_ids));
    assert(enc_note(n) =~= enc_u64(n.id) + (enc_str(n.owner) + (enc_str(n.title) + (enc_str(
        n.content,
    ) + (enc_u64(n.created_at) + (enc_opt_u64(n.updated_at) + enc_u64_seq(n.tag_ids)))))));
}

/// Decoding the encoding of a tag gives the tag back.
pub proof fn lemma_parse_tag_enc(t: TagView)
    requires
        tag_encodable(t),
    ensures
        parse_tag(enc_tag(t)) == Some(t),
{
    let r1 = enc_str(t.name);
    assert(enc_tag(t) =~= enc_u64(t.id) + r1);
    lemma_parse_u64_enc(t.id, r1);
    assert(r1 =~= enc_str(t.name) + Seq::<u8>::empty());
    lemma_parse_str_enc(t.name, Seq::<u8>::empty());
}

/// A buffer that parses as a tag is that tag's encoding.
pub proof fn lemma_enc_parse_tag(b: Seq<u8>)
    requires
        parse_tag(b) is Some,
    ensures
        ({
            let t = parse_tag(b)->0;
            tag_encodable(t) && enc_tag(t) == b
        }),
{
    let t = parse_tag(b)->0;
    lemma_enc_parse_u64(b);
    let t1 = parse_u64(b)->0;
    lemma_enc_parse_str(t1.1);
    let t2 = parse_str(t1.1)->0;
    assert(t2.1.len() == 0);
    assert(enc_str(t.name) + t2.1 =~= enc_str(t.name));
    assert(enc_tag(t) =~= enc_u64(t.id) + enc_str(t.name));
}

/// Decoding the encoding of a note version gives the version back.
pub proof fn lemma_parse_version_enc(v: NoteVersionView)
    requires
        version_encodable(v),
    ensures
        parse_version(enc_version(v)) == Some(v),
{
    let r5 = enc_u64(v.created_at);
    let r4 = enc_u64(v.version_number) + r5;
    let r3 = enc_str(v.content) + r4;
    let r2 = enc_str(v.title) + r3;
    let r1 = enc_u64(v.note_id) + r2;
    assert(enc_version(v) =~= enc_u64(v.id) + r1);
    lemma_parse_u64_enc(v.id, r1);
    lemma_parse_u64_enc(v.note_id, r2);
    lemma_parse_str_enc(v.title, r3);
    lemma_parse_str_enc(v.content, r4);
    lemma_parse_u64_enc(v.version_number, r5);
    assert(r5 =~= enc_u64(v.created_at) + Seq::<u8>::empty());
    lemma_parse_u64_enc(v.created_at, Seq::<u8>::empty());
}

/// A buffer that parses as a note version is that version's encoding.
#[verifier::rlimit(50)]
pub proof fn lemma_enc_parse_version(b: Seq<u8>)
    requires
        parse_version(b) is Some,
    ensures
        ({
            let v = parse_version(b)->0;
            version_encodable(v) && enc_version(v) == b
        }),
{
    let v = parse_version(b)->0;
    lemma_enc_parse_u64(b);
    let t1 = parse_u64(b)->0;
    lemma_enc_parse_u64(t1.1);
    let t2 = parse_u64(t1.1)->0;
    lemma_enc_parse_str(t2.1);
    let t3 = parse_str(t2.1)->0;
    lemma_enc_parse_str(t3.1);
    let t4 = parse_str(t3.1)->0;
    lemma_enc_parse_u64(t4.1);
    let t5 = parse_u64(t4.1)->0;
    lemma_enc_parse_u64(t5.1);
    let t6 = parse_u64(t5.1)->0;
    assert(t6.1.len() == 0);
    assert(enc_u64(v.created_at) + t6.1 =~= enc_u64(v.created_at));
    assert(enc_version(v) =~= enc_u64(v.id) + (enc_u64(v.note_id) + (enc_str(v.title) + (enc_str(
        v.content,
    ) + (enc_u64(v.version_number) + enc_u64(v.created_at))))));
}

// ---------------------------------------------------------------------------
// Executable encoders
// ---------------------------------------------------------------------------
/// Appends a value's eight little-endian bytes.
fn push_u64(out: &mut Vec<u8>, v: u64)
    ensures
        final(out)@ == old(out)@ + enc_u64(v),
{
    let mut b = u64_to_le_bytes(v);
    out.append(&mut b);
}

/// Appends a string's length prefix and UTF-8 bytes.
fn push_str(out: &mut Vec<u8>, s: &str)
    ensures
        final(out)@ == old(out)@ + enc_str(s@),
        str_encodable(s@),
{
    let mut b = s.as_bytes_vec();
    let len = b.len();
    push_u64(out, len as u64);
    out.append(&mut b);
    proof {
        assert(final(out)@ =~= old(out)@ + enc_str(s@));
    }
}

/// Serializes a note to its canonical byte form.
pub fn encode_note(n: &Note) -> (out: Vec<u8>)
    ensures
        out@ == enc_note(n@),
        note_encodable(n@),
{
    let mut out: Vec<u8> = Vec::new();
    push_u64(&mut out, n.id);
    push_str(&mut out, n.owner.as_str());
    push_str(&mut out, n.title.as_str());
    push_str(&mut out, n.content.as_str());
    push_u64(&mut out, n.created_at);
    match n.updated_at {
        None => out.push(0u8),
        Some(v) => {
            out.push(1u8);
            push_u64(&mut out, v);
        },
    }
    proof {
        assert(out@ =~= Seq::<u8>::empty() + enc_u64(n.id) + enc_str(n.owner@) + enc_str(n.title@)
            + enc_str(n.content@) + enc_u64(n.created_at) + enc_opt_u64(n.updated_at));
    }
    let count = n.tag_ids.len();
    push_u64(&mut out, count as u64);
    let ghost mid = out@;
    for i in 0..count
        invariant
            count == n.tag_ids@.len(),
            out@ == mid + enc_u64_seq_items(n.tag_ids@.take(i as int)),
    {
        push_u64(&mut out, n.tag_ids[i]);
        proof {
            lemma_enc_u64_seq_items_snoc(n.tag_ids@, i as int);
        }
    }
    proof {
        assert(n.tag_ids@.take(count as int) =~= n.tag_ids@);
        assert(out@ =~= enc_note(n@));
    }
    out
}

/// Splitting an id list's last element off its encoding.
proof fn lemma_enc_u64_seq_items_snoc(v: Seq<u64>, i: int)
    requires
        0 <= i < v.len(),
    ensures
        enc_u64_seq_items(v.take(i + 1)) == enc_u64_seq_items(v.take(i)) + enc_u64(v[i]),
    decreases i,
{
    if i == 0 {
        assert(v.take(1) =~= seq![v[0]]);
        assert(v.take(1).skip(1) =~= Seq::<u64>::empty());
        assert(v.take(0) =~= Seq::<u64>::empty());
        assert(enc_u64_seq_items(v.take(1)) =~= enc_u64_seq_items(v.take(0)) + enc_u64(v[0]));
    } else {
        lemma_enc_u64_seq_items_snoc(v.skip(1), i - 1);
        assert(v.take(i + 1).skip(1) =~= v.skip(1).take(i));
        assert(v.take(i).skip(1) =~= v.skip(1).take(i - 1));
        assert(v.take(i + 1)[0] == v[0]);
        assert(v.take(i)[0] == v[0]);
        assert(v.skip(1)[i - 1] == v[i]);
        assert(enc_u64_seq_items(v.take(i + 1)) =~= enc_u64_seq_items(v.take(i)) + enc_u64(v[i]));
    }
}

/// Serializes a tag to its canonical byte form.
pub fn encode_tag(t: &Tag) -> (out: Vec<u8>)
    ensures
        out@ == enc_tag(t@),
        tag_encodable(t@),
{
    let mut out: Vec<u8> = Vec::new();
    push_u64(&mut out, t.id);
    push_str(&mut out, t.name.as_str());
    proof {
        assert(out@ =~= enc_tag(t@));
    }
    out
}

/// Serializes a note version to its canonical byte form.
pub fn encode_version(v: &NoteVersion) -> (out: Vec<u8>)
    ensures
        out@ == enc_version(v@),
        version_encodable(v@),
{
    let mut out: Vec<u8> = Vec::new();
    push_u64(&mut out, v.id);
    push_u64(&mut out, v.note_id);
    push_str(&mut out, v.title.as_str());
    push_str(&mut out, v.content.as_str());
    push_u64(&mut out, v.version_number);
    push_u64(&mut out, v.created_at);
    proof {
        assert(out@ =~= enc_version(v@));
    }
    out
}

// ---------------------------------------------------------------------------
// Executable decoders
// ---------------------------------------------------------------------------
/// Relies on String::from_utf8: it succeeds exactly on valid UTF-8 input,
/// and then returns the string those bytes spell.
#[verifier::external_body]
fn string_from_utf8(v: Vec<u8>) -> (r: Option<String>)
    ensures
        r is Some <==> valid_utf8(v@),
        r matches Some(s) ==> s@ == decode_utf8(v@),
{
    String::from_utf8(v).ok()
}

/// Reads a value at `pos`, returning it with the position after it.
fn read_u64(b: &[u8], pos: usize) -> (r: Option<(u64, usize)>)
    requires
        pos <= b@.len(),
    ensures
        match r {
            Some(t) => t.1 <= b@.len() && parse_u64(b@.skip(pos as int)) == Some(
                (t.0, b@.skip(t.1 as int)),
            ),
            None => parse_u64(b@.skip(pos as int)) is None,
        },
{
    if b.len() - pos < 8 {
        return None;
    }
    let s = slice_subrange(b, pos, pos + 8);
    let v = u64_from_le_bytes(s);
    proof {
        assert(s@ =~= b@.skip(pos as int).take(8));
        assert(b@.skip(pos as int).skip(8) =~= b@.skip(pos as int + 8));
    }
    Some((v, pos + 8))
}

/// Reads a length-prefixed byte run at `pos`.
fn read_lp_bytes(b: &[u8], pos: usize) -> (r: Option<(Vec<u8>, usize)>)
    requires
        pos <= b@.len(),
    ensures
        match r {
            Some(t) => t.1 <= b@.len() && parse_bytes(b@.skip(pos as int)) == Some(
                (t.0@, b@.skip(t.1 as int)),
            ),
            None => parse_bytes(b@.skip(pos as int)) is None,
        },
{
    match read_u64(b, pos) {
        None => None,
        Some((n, p1)) => {
            if n > (b.len() - p1) as u64 {
                return None;
            }
            let len = n as usize;
            let s = slice_subrange(b, p1, p1 + len);
            let v = slice_to_vec(s);
            proof {
                assert(s@ =~= b@.skip(p1 as int).take(n as int));
                assert(b@.skip(p1 as int).skip(n as int) =~= b@.skip(p1 as int + n));
            }
            Some((v, p1 + len))
        },
    }
}

/// Reads a length-prefixed UTF-8 string at `pos`.
fn read_str(b: &[u8], pos: usize) -> (r: Option<(String, usize)>)
    requires
        pos <= b@.len(),
    ensures
        match r {
            Some(t) => t.1 <= b@.len() && parse_str(b@.skip(pos as int)) == Some(
                (t.0@, b@.skip(t.1 as int)),
            ),
            None => parse_str(b@.skip(pos as int)) is None,
        },
{
    match read_lp_bytes(b, pos) {
        None => None,
        Some((bytes, p1)) => match string_from_utf8(bytes) {
            None => None,
            Some(s) => Some((s, p1)),
        },
    }
}

/// Reads a presence byte and, when present, a value at `pos`.
fn read_opt_u64(b: &[u8], pos: usize) -> (r: Option<(Option<u64>, usize)>)
    requires
        pos <= b@.len(),
    ensures
        match r {
            Some(t) => t.1 <= b@.len() && parse_opt_u64(b@.skip(pos as int)) == Some(
                (t.0, b@.skip(t.1 as int)),
            ),
            None => parse_opt_u64(b@.skip(pos as int)) is None,
        },
{
    if b.len() == pos {
        return None;
    }
    let flag = *slice_index_get(b, pos);
    proof {
        assert(b@.skip(pos as int)[0] == b@[pos as int]);
        assert(b@.skip(pos as int).skip(1) =~= b@.skip(pos as int + 1));
    }
    if flag == 0u8 {
        Some((None, pos + 1))
    } else if flag == 1u8 {
        match read_u64(b, pos + 1) {
            None => None,
            Some((v, p1)) => Some((Some(v), p1)),
        }
    } else {
        None
    }
}

/// Reads a count-prefixed id list at `pos`.
fn read_u64_seq(b: &[u8], pos: usize) -> (r: Option<(Vec<u64>, usize)>)
    requires
        pos <= b@.len(),
    ensures
        match r {
            Some(t) => t.1 <= b@.len() && parse_u64_seq(b@.skip(pos as int)) == Some(
                (t.0@, b@.skip(t.1 as int)),
            ),
            None => parse_u64_seq(b@.skip(pos as int)) is None,
        },
{
    match read_u64(b, pos) {
        None => None,
        Some((count, p0)) => {
            let mut ids: Vec<u64> = Vec::new();
            let mut p = p0;
            let mut i: u64 = 0;
            while i < count
                invariant
                    i <= count,
                    p <= b@.len(),
                    pos <= b@.len(),
                    ids@.len() == i,
                    parse_u64(b@.skip(pos as int)) == Some((count, b@.skip(p0 as int))),
                    match parse_u64_seq_items(b@.skip(p as int), (count - i) as u64) {
                        Some(t) => parse_u64_seq_items(b@.skip(p0 as int), count) == Some(
                            ((ids@ + t.0, t.1)),
                        ),
                        None => parse_u64_seq_items(b@.skip(p0 as int), count) is None,
                    },
                decreases count - i,
            {
                match read_u64(b, p) {
                    None => {
                        proof {
                            assert(count - i > 0);
                            assert(parse_u64_seq_items(b@.skip(p as int), (count - i) as u64)
                                is None);
                        }
                        return None;
                    },
                    Some((v, p1)) => {
                        proof {
                            lemma_parse_items_prepend_shift(
                                b@,
                                p as int,
                                p1 as int,
                                v,
                                (count - i) as u64,
                            );
                        }
                        let ghost prev = ids@;
                        ids.push(v);
                        proof {
                            let rec = parse_u64_seq_items(
                                b@.skip(p1 as int),
                                (count - (i + 1)) as u64,
                            );
                            if rec is Some {
                                let rt = rec->0;
                                assert(prev + (seq![v] + rt.0) =~= ids@ + rt.0);
                            }
                        }
                        p = p1;
                        i = i + 1;
                    },
                }
            }
            proof {
                assert(ids@ + Seq::<u64>::empty() =~= ids@);
            }
            Some((ids, p))
        },
    }
}

/// Unfolding one element off a fixed-count item parse.
proof fn lemma_parse_items_prepend_shift(b: Seq<u8>, p: int, p1: int, v: u64, n: u64)
    requires
        n > 0,
        0 <= p <= b.len(),
        0 <= p1 <= b.len(),
        parse_u64(b.skip(p)) == Some((v, b.skip(p1))),
    ensures
        parse_u64_seq_items(b.skip(p), n) == (match parse_u64_seq_items(b.skip(p1), (n - 1) as u64) {
            Some(t) => Some(((seq![v] + t.0, t.1))),
            None => None::<(Seq<u64>, Seq<u8>)>,
        }),
{
}

/// Deserializes a note from its canonical byte form. Returns the note
/// exactly when the buffer is a note's encoding.
pub fn decode_note(b: &[u8]) -> (r: Option<Note>)
    ensures
        match r {
            Some(n) => parse_note(b@) == Some(n@),
            None => parse_note(b@) is None,
        },
{
    proof {
        assert(b@.skip(0) =~= b@);
    }
    let (id, p1) = match read_u64(b, 0) {
        Some(t) => t,
        None => return None,
    };
    let (owner, p2) = match read_str(b, p1) {
        Some(t) => t,
        None => return None,
    };
    let (title, p3) = match read_str(b, p2) {
        Some(t) => t,
        None => return None,
    };
    let (content, p4) = match read_str(b, p3) {
        Some(t) => t,
        None => return None,
    };
    let (created_at, p5) = match read_u64(b, p4) {
        Some(t) => t,
        None => return None,
    };
    let (updated_at, p6) = match read_opt_u64(b, p5) {
        Some(t) => t,
        None => return None,
    };
    let (tag_ids, p7) = match read_u64_seq(b, p6) {
        Some(t) => t,
        None => return None,
    };
    if p7 != b.len() {
        return None;
    }
    Some(Note { id, owner, title, content, created_at, updated_at, tag_ids })
}

/// Deserializes a tag from its canonical byte form.
pub fn decode_tag(b: &[u8]) -> (r: Option<Tag>)
    ensures
        match r {
            Some(t) => parse_tag(b@) == Some(t@),
            None => parse_tag(b@) is None,
        },
{
    proof {
        assert(b@.skip(0) =~= b@);
    }
    let (id, p1) = match read_u64(b, 0) {
        Some(t) => t,
        None => return None,
    };
    let (name, p2) = match read_str(b, p1) {
        Some(t) => t,
        None => return None,
    };
    if p2 != b.len() {
        return None;
    }
    Some(Tag { id, name })
}

/// Deserializes a note version from its canonical byte form.
pub fn decode_version(b: &[u8]) -> (r: Option<NoteVersion>)
    ensures
        match r {
            Some(v) => parse_version(b@) == Some(v@),
            None => parse_version(b@) is None,
        },
{
    proof {
        assert(b@.skip(0) =~= b@);
    }
    let (id, p1) = match read_u64(b, 0) {
        Some(t) => t,
        None => return None,
    };
    let (note_id, p2) = match read_u64(b, p1) {
        Some(t) => t,
        None => return None,
    };
    let (title, p3) = match read_str(b, p2) {
        Some(t) => t,
        None => return None,
    };
    let (content, p4) = match read_str(b, p3) {
        Some(t) => t,
        None => return None,
    };
    let (version_number, p5) = match read_u64(b, p4) {
        Some(t) => t,
        None => return None,
    };
    let (created_at, p6) = match read_u64(b, p5) {
        Some(t) => t,
        None => return None,
    };
    if p6 != b.len() {
        return None;
    }
    Some(NoteVersion { id, note_id, title, content, version_number, created_at })
}

} // verus!
