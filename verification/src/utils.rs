//! Payload validation and the plain text predicates the store's queries use:
//! word counting for content checks and substring search over characters.

use vstd::prelude::*;
use vstd::string::StrSliceExecFns;

use crate::types::{Error, Note, NotePayload};

verus! {

/// Whether a character counts as whitespace when splitting text into words,
/// as Unicode's White_Space property defines it.
pub uninterp spec fn is_unicode_whitespace(c: char) -> bool;

/// Relies on char::is_whitespace: true exactly for characters with the
/// Unicode White_Space property, a fixed function of the character alone.
pub assume_specification[ char::is_whitespace ](c: char) -> (r: bool)
    ensures
        r == is_unicode_whitespace(c),
;

/// How many words `s` holds from position zero onward, where `in_word` says
/// whether position zero continues a word that began earlier. A word is a
/// maximal run of non-whitespace characters.
pub open spec fn word_count_from(s: Seq<char>, in_word: bool) -> nat
    decreases s.len(),
{
    if s.len() == 0 {
        0
    } else {
        let ws = is_unicode_whitespace(s[0]);
        (if !ws && !in_word {
            1nat
        } else {
            0nat
        }) + word_count_from(s.skip(1), !ws)
    }
}

/// How many whitespace-separated words `s` holds.
pub open spec fn word_count(s: Seq<char>) -> nat {
    word_count_from(s, false)
}

/// Counts the whitespace-separated words of `s`.
pub fn count_words(s: &str) -> (n: usize)
    ensures
        n == word_count(s@),
{
    let len = s.unicode_len();
    let mut count: usize = 0;
    let mut in_word = false;
    proof {
        assert(s@.skip(0) =~= s@);
    }
    for i in 0..len
        invariant
            len == s@.len(),
            count <= i,
            count + word_count_from(s@.skip(i as int), in_word) == word_count(s@),
    {
        let c = s.get_char(i);
        let ws = c.is_whitespace();
        proof {
            assert(s@.skip(i as int).len() > 0);
            assert(s@.skip(i as int)[0] == s@[i as int]);
            assert(s@.skip(i as int).skip(1) =~= s@.skip(i as int + 1));
        }
        if !ws && !in_word {
            count = count + 1;
        }
        in_word = !ws;
    }
    proof {
        assert(s@.skip(len as int).len() == 0);
    }
    count
}

/// `needle` occurs in `hay` starting at position `i`.
pub open spec fn is_substring_at(hay: Seq<char>, needle: Seq<char>, i: int) -> bool {
    &&& 0 <= i
    &&& i + needle.len() <= hay.len()
    &&& hay.subrange(i, i + needle.len()) == needle
}

/// `needle` occurs somewhere in `hay`.
pub open spec fn contains_substring(hay: Seq<char>, needle: Seq<char>) -> bool {
    exists|i: int| is_substring_at(hay, needle, i)
}

/// Whether `needle` occurs in `hay`, comparing character by character.
pub fn str_contains(hay: &str, needle: &str) -> (r: bool)
    ensures
        r == contains_substring(hay@, needle@),
{
    let hlen = hay.unicode_len();
    let nlen = needle.unicode_len();
    if nlen > hlen {
        proof {
            assert forall|i: int| !#[trigger] is_substring_at(hay@, needle@, i) by {}
        }
        return false;
    }
    if nlen == 0 {
        proof {
            assert(hay@.subrange(0, 0) =~= needle@);
            assert(is_substring_at(hay@, needle@, 0));
        }
        return true;
    }
    let mut i: usize = 0;
    while i <= hlen - nlen
        invariant
            hlen == hay@.len(),
            nlen == needle@.len(),
            1 <= nlen <= hlen,
            i <= hlen - nlen + 1,
            forall|j: int| 0 <= j < i ==> !is_substring_at(hay@, needle@, j),
        decreases hlen - nlen - i + 1,
    {
        let mut k: usize = 0;
        let mut mismatch = false;
        while k < nlen
            invariant
                hlen == hay@.len(),
                nlen == needle@.len(),
                i + nlen <= hlen,
                k <= nlen,
                !mismatch ==> forall|t: int| 0 <= t < k ==> hay@[i + t] == needle@[t],
                mismatch ==> !is_substring_at(hay@, needle@, i as int),
            decreases nlen - k,
        {
            if !mismatch {
                let hc = hay.get_char(i + k);
                let nc = needle.get_char(k);
                if hc != nc {
                    proof {
                        assert(hay@.subrange(i as int, i + nlen) != needle@) by {
                            assert(hay@.subrange(i as int, i + nlen)[k as int] == hay@[i + k]);
                        }
                    }
                    mismatch = true;
                }
            }
            k = k + 1;
        }
        if !mismatch {
            proof {
                assert(hay@.subrange(i as int, i + nlen) =~= needle@);
                assert(is_substring_at(hay@, needle@, i as int));
            }
            return true;
        }
        i = i + 1;
    }
    proof {
        assert forall|j: int| !#[trigger] is_substring_at(hay@, needle@, j) by {
            if 0 <= j && j + needle@.len() <= hay@.len() {
                assert(j < i);
            }
        }
    }
    false
}

/// The character for one decimal digit.
pub open spec fn digit_char(d: nat) -> char {
    if d == 0 {
        '0'
    } else if d == 1 {
        '1'
    } else if d == 2 {
        '2'
    } else if d == 3 {
        '3'
    } else if d == 4 {
        '4'
    } else if d == 5 {
        '5'
    } else if d == 6 {
        '6'
    } else if d == 7 {
        '7'
    } else if d == 8 {
        '8'
    } else {
        '9'
    }
}

/// The decimal digits of `n`, most significant first, with no leading zero
/// except for zero itself.
pub open spec fn decimal_digits(n: nat) -> Seq<char>
    decreases n,
{
    if n < 10 {
        seq![digit_char(n)]
    } else {
        decimal_digits(n / 10).push(digit_char(n % 10))
    }
}

/// The one-character text of a decimal digit.
fn digit_str(d: u64) -> (r: &'static str)
    requires
        d < 10,
    ensures
        r@ == seq![digit_char(d as nat)],
{
    proof {
        reveal_strlit("0");
        reveal_strlit("1");
        reveal_strlit("2");
        reveal_strlit("3");
        reveal_strlit("4");
        reveal_strlit("5");
        reveal_strlit("6");
        reveal_strlit("7");
        reveal_strlit("8");
        reveal_strlit("9");
    }
    if d == 0 {
        "0"
    } else if d == 1 {
        "1"
    } else if d == 2 {
        "2"
    } else if d == 3 {
        "3"
    } else if d == 4 {
        "4"
    } else if d == 5 {
        "5"
    } else if d == 6 {
        "6"
    } else if d == 7 {
        "7"
    } else if d == 8 {
        "8"
    } else {
        "9"
    }
}

/// Writes `n` in decimal, for identifiers quoted in error messages.
pub fn u64_to_decimal(n: u64) -> (r: String)
    ensures
        r@ == decimal_digits(n as nat),
    decreases n,
{
    if n < 10 {
        digit_str(n).to_owned()
    } else {
        let mut s = u64_to_decimal(n / 10);
        s.append(digit_str(n % 10));
        proof {
            assert(s@ =~= decimal_digits(n as nat));
        }
        s
    }
}

/// The structural validity check applied when a note is created or updated:
/// the title has at least three bytes in its UTF-8 form and the content has
/// at least five words.
pub open spec fn payload_well_formed(title: Seq<char>, content: Seq<char>) -> bool {
    &&& vstd::utf8::encode_utf8(title).len() >= 3
    &&& word_count(content) >= 5
}

/// Checks a payload's structure: the title must have at least three bytes
/// and the content at least five words.
pub fn validate_payload(payload: &NotePayload) -> (r: Result<(), Error>)
    ensures
        r is Ok <==> payload_well_formed(payload.title@, payload.content@),
        r matches Err(e) ==> e is InvalidInput,
        vstd::utf8::encode_utf8(payload.title@).len() < 3 ==> (r matches Err(e)
            && e->InvalidInput_msg@ == "Title should be more than 3 letters"@),
        (vstd::utf8::encode_utf8(payload.title@).len() >= 3 && word_count(payload.content@) < 5)
            ==> (r matches Err(e) && e->InvalidInput_msg@
            == "Content should be more than 5 words"@),
{
    let title_bytes = payload.title.as_str().as_bytes();
    if title_bytes.len() < 3 {
        return Err(Error::InvalidInput { msg: "Title should be more than 3 letters".to_owned() });
    }
    let words = count_words(payload.content.as_str());
    if words < 5 {
        return Err(Error::InvalidInput { msg: "Content should be more than 5 words".to_owned() });
    }
    Ok(())
}

/// The minimal validity check applied by note creation and update: neither
/// the title nor the content may be empty.
pub open spec fn payload_nonempty(title: Seq<char>, content: Seq<char>) -> bool {
    &&& title.len() >= 1
    &&& content.len() >= 1
}

/// Checks that `caller` is the recorded owner of `note`: mutating a note is
/// allowed only to the identity that created it, while anyone may read it.
pub fn _check_if_owner(note: &Note, caller: &String) -> (r: Result<(), Error>)
    ensures
        r is Ok <==> note.owner@ == caller@,
        r matches Err(e) ==> e is AuthenticationFailed && e.spec_message() == "Caller="@ + caller@
            + " isn't the owner of the note with id="@ + decimal_digits(note.id as nat),
{
    if note.owner.eq(caller) {
        Ok(())
    } else {
        let mut msg = "Caller=".to_owned();
        msg.append(caller.as_str());
        msg.append(" isn't the owner of the note with id=");
        msg.append(u64_to_decimal(note.id).as_str());
        Err(Error::AuthenticationFailed { msg })
    }
}

/// Checks that a payload's title and content each hold at least one
/// character.
pub fn _check_input(payload: &NotePayload) -> (r: Result<(), Error>)
    ensures
        r is Ok <==> payload_nonempty(payload.title@, payload.content@),
        r matches Err(e) ==> e is ValidationFailed && e.spec_message()
            == "title and content must each have at least one character"@,
{
    if payload.title.as_str().is_empty() || payload.content.as_str().is_empty() {
        return Err(Error::ValidationFailed {
            content: "title and content must each have at least one character".to_owned(),
        });
    }
    Ok(())
}

} // verus!
