//! Module texts, and their assembly.

use vstd::prelude::*;
use vstd::utf8::encode_utf8;

use crate::strings::{chars_of, owned};

verus! {

/// The most bytes of a module text that are assembled.
pub const MAX_TEXT: usize = 268435456;

/// Whether a character is white space of the text format.
pub open spec fn is_blank(c: char) -> bool {
    c == ' ' || c == '\t' || c == '\n' || c == '\r'
}

/// Where the line comment that goes on at character `i` ends.
pub open spec fn comment_end(s: Seq<char>, i: int) -> int
    decreases s.len() - i,
{
    if i < s.len() && s[i] != '\n' && s[i] != '\r' {
        comment_end(s, i + 1)
    } else {
        i
    }
}

/// The first character at or after `i` that is neither white space nor in a line
/// comment.
pub open spec fn body_start(s: Seq<char>, i: int) -> int
    decreases s.len() - i,
    via body_start_decreases
{
    if 0 <= i < s.len() && is_blank(s[i]) {
        body_start(s, i + 1)
    } else if 0 <= i && i + 1 < s.len() && s[i] == ';' && s[i + 1] == ';' {
        body_start(s, comment_end(s, i + 2))
    } else {
        i
    }
}

#[via_fn]
proof fn body_start_decreases(s: Seq<char>, i: int) {
    if 0 <= i && i + 1 < s.len() {
        lemma_comment_end(s, i + 2);
    }
}

proof fn lemma_comment_end(s: Seq<char>, i: int)
    requires
        0 <= i <= s.len(),
    ensures
        i <= comment_end(s, i) <= s.len(),
    decreases s.len() - i,
{
    if i < s.len() && s[i] != '\n' && s[i] != '\r' {
        lemma_comment_end(s, i + 1);
    }
}

/// Whether `part` stands in `s` at character `i`.
pub open spec fn stands_at(s: Seq<char>, i: int, part: Seq<char>) -> bool {
    0 <= i && i + part.len() <= s.len() && s.subrange(i, i + part.len()) == part
}

/// Whether a text opens with a module, after white space and line comments: what
/// the text format knows as the text of a component does not.
pub open spec fn opens_module(s: Seq<char>) -> bool {
    stands_at(s, body_start(s, 0), "(module"@)
}

/// Whether a text opens with a module.
pub fn has_module(text: &str) -> (r: bool)
    ensures
        r == opens_module(text@),
{
    let s = chars_of(text);
    let mut i: usize = 0;
    while i < s.len() && (s[i] == ' ' || s[i] == '\t' || s[i] == '\n' || s[i] == '\r' || (s[i]
        == ';' && i + 1 < s.len() && s[i + 1] == ';'))
        invariant
            i <= s.len(),
            s@ == text@,
            body_start(s@, 0) == body_start(s@, i as int),
        decreases s.len() - i,
    {
        if s[i] == ';' {
            let mut end: usize = i + 2;
            while end < s.len() && s[end] != '\n' && s[end] != '\r'
                invariant
                    i + 2 <= end <= s.len(),
                    comment_end(s@, i + 2) == comment_end(s@, end as int),
                decreases s.len() - end,
            {
                end += 1;
            }
            i = end;
        } else {
            i += 1;
        }
    }
    let part = chars_of("(module");
    if s.len() - i < part.len() {
        return false;
    }
    let ghost whole = s@.subrange(i as int, i + part@.len());
    let mut k: usize = 0;
    while k < part.len()
        invariant
            k <= part.len(),
            i + part.len() <= s.len(),
            s@ == text@,
            part@ == "(module"@,
            i == body_start(s@, 0),
            whole == s@.subrange(i as int, i + part@.len()),
            forall|j: int| 0 <= j < k ==> whole[j] == #[trigger] part@[j],
        decreases part.len() - k,
    {
        if s[i + k] != part[k] {
            assert(whole[k as int] != part@[k as int]);
            return false;
        }
        k += 1;
    }
    assert(whole =~= part@);
    true
}

/// Why a text is not handed to the assembler, if it is not.
pub open spec fn refusal(s: Seq<char>) -> Option<Seq<char>> {
    if !opens_module(s) {
        Some("the text does not open with a module"@)
    } else if encode_utf8(s).len() > MAX_TEXT {
        Some("the text is too long"@)
    } else {
        None
    }
}

/// The bytes that a module text assembles to, or the message of the assembler.
pub uninterp spec fn assembled(text: Seq<char>) -> Result<Seq<u8>, Seq<char>>;

/// `wat::parse_str`: the binary encoding of a module in the text format, or the
/// display text of the error. The text opens with a module, so that it is not
/// read as a component; there the result would also depend on the environment.
/// It is short enough that no token and no part of the encoding outgrows the 32
/// bits that the assembler counts in. The result depends on the text alone.
#[verifier::external_body]
fn parse(text: &str) -> (r: Result<Vec<u8>, String>)
    requires
        opens_module(text@),
        encode_utf8(text@).len() <= MAX_TEXT,
    ensures
        match r {
            Ok(bytes) => assembled(text@) == Ok::<Seq<u8>, Seq<char>>(bytes@),
            Err(message) => assembled(text@) == Err::<Seq<u8>, Seq<char>>(message@),
        },
{
    wat::parse_str(text).map_err(|err| err.to_string())
}

/// What assembling a text comes to: its bytes, or why there are none.
pub open spec fn assembly(s: Seq<char>) -> Result<Seq<u8>, Seq<char>> {
    match refusal(s) {
        Some(message) => Err(message),
        None => assembled(s),
    }
}

/// Assembles a text.
pub fn assemble(text: &str) -> (r: Result<Vec<u8>, String>)
    ensures
        match r {
            Ok(bytes) => assembly(text@) == Ok::<Seq<u8>, Seq<char>>(bytes@),
            Err(message) => assembly(text@) == Err::<Seq<u8>, Seq<char>>(message@),
        },
{
    if !has_module(text) {
        return Err(owned("the text does not open with a module"));
    }
    if text.as_bytes().len() > MAX_TEXT {
        return Err(owned("the text is too long"));
    }
    parse(text)
}

} // verus!
