//! JSON text of strings and lists of strings.

use vstd::prelude::*;

use crate::strings::texts;

verus! {

/// A lower-case hexadecimal digit.
pub open spec fn hex_digit(d: int) -> char {
    if d < 10 {
        ((48 + d) as u8) as char
    } else {
        ((87 + d) as u8) as char
    }
}

/// How a character stands in a JSON string: quotes, backslashes and control
/// characters are escaped, everything else stands for itself.
pub open spec fn json_char(c: char) -> Seq<char> {
    if c == '"' {
        seq!['\\', '"']
    } else if c == '\\' {
        seq!['\\', '\\']
    } else if c == '\u{8}' {
        seq!['\\', 'b']
    } else if c == '\t' {
        seq!['\\', 't']
    } else if c == '\n' {
        seq!['\\', 'n']
    } else if c == '\u{c}' {
        seq!['\\', 'f']
    } else if c == '\r' {
        seq!['\\', 'r']
    } else if (c as int) < 32 {
        seq!['\\', 'u', '0', '0', hex_digit(c as int / 16), hex_digit(c as int % 16)]
    } else {
        seq![c]
    }
}

/// The characters of `s` as they stand in a JSON string.
pub open spec fn json_chars(s: Seq<char>) -> Seq<char>
    decreases s.len(),
{
    if s.len() == 0 {
        Seq::empty()
    } else {
        json_chars(s.drop_last()) + json_char(s.last())
    }
}

/// `s` as a JSON string.
pub open spec fn json_text(s: Seq<char>) -> Seq<char> {
    seq!['"'] + json_chars(s) + seq!['"']
}

/// `serde_json::to_string` on a string: the JSON string with that content. It
/// never fails on a string.
#[verifier::external_body]
pub(crate) fn json_string(s: &str) -> (r: String)
    ensures
        r@ == json_text(s@),
{
    serde_json::to_string(s).unwrap_or_default()
}

/// The JSON strings of `s`, separated by commas.
pub open spec fn json_items(s: Seq<Seq<char>>) -> Seq<char>
    decreases s.len(),
{
    if s.len() == 0 {
        Seq::empty()
    } else if s.len() == 1 {
        json_text(s[0])
    } else {
        json_items(s.drop_last()) + ","@ + json_text(s.last())
    }
}

/// Appends the JSON strings of `items`, separated by commas.
pub fn push_json_items(out: &mut String, items: &Vec<String>)
    ensures
        final(out)@ == old(out)@ + json_items(texts(items@)),
{
    let ghost all = texts(items@);
    let mut i: usize = 0;
    assert(out@ =~= old(out)@ + json_items(all.take(0)));
    while i < items.len()
        invariant
            i <= items.len(),
            all == texts(items@),
            out@ == old(out)@ + json_items(all.take(i as int)),
        decreases items.len() - i,
    {
        if i > 0 {
            out.push_str(",");
        }
        let item = json_string(items[i].as_str());
        out.push_str(item.as_str());
        proof {
            assert(all.take(i + 1).drop_last() =~= all.take(i as int));
            assert(all.take(i + 1).last() == all[i as int]);
            assert(out@ =~= old(out)@ + json_items(all.take(i + 1)));
        }
        i += 1;
    }
    assert(all.take(all.len() as int) =~= all);
}

} // verus!
