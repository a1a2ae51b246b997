//! Float literals.

use vstd::prelude::*;

use crate::strings::{chars_of, text_part};

verus! {

/// Where the decimal point of a literal stands, at or after character `i`, or the
/// end.
pub open spec fn point_from(s: Seq<char>, i: int) -> int
    decreases s.len() - i,
{
    if i >= s.len() || s[i] == '.' {
        i
    } else {
        point_from(s, i + 1)
    }
}

/// Digits without the zeros in front that say nothing: one digit stays.
pub open spec fn without_leading(s: Seq<char>) -> Seq<char>
    decreases s.len(),
{
    if s.len() > 1 && s[0] == '0' {
        without_leading(s.drop_first())
    } else {
        s
    }
}

/// Digits without the zeros at their end.
pub open spec fn without_trailing(s: Seq<char>) -> Seq<char>
    decreases s.len(),
{
    if s.len() > 0 && s.last() == '0' {
        without_trailing(s.drop_last())
    } else {
        s
    }
}

/// The digits of a literal behind its point.
pub open spec fn fraction_of(s: Seq<char>) -> Seq<char> {
    let point = point_from(s, 0);
    if point < s.len() {
        s.subrange(point + 1, s.len() as int)
    } else {
        Seq::empty()
    }
}

/// A float literal without redundant zeros: `2.50` is `2.5`, `2.0` is `2`, and
/// `010.5` is `10.5`.
pub open spec fn shortened(s: Seq<char>) -> Seq<char> {
    let whole = without_leading(s.take(point_from(s, 0)));
    let fraction = without_trailing(fraction_of(s));
    if fraction.len() == 0 {
        whole
    } else {
        whole.push('.') + fraction
    }
}

/// A float literal without redundant zeros.
pub fn shorten(text: &str) -> (r: String)
    ensures
        r@ == shortened(text@),
{
    let chars = chars_of(text);
    let ghost s = text@;
    let mut point: usize = 0;
    while point < chars.len() && chars[point] != '.'
        invariant
            point <= chars.len(),
            chars@ == s,
            point_from(s, 0) == point_from(s, point as int),
        decreases chars.len() - point,
    {
        point += 1;
    }
    let mut start: usize = 0;
    assert(s.subrange(0, point as int) =~= s.take(point as int));
    while start < point && point - start > 1 && chars[start] == '0'
        invariant
            start <= point <= chars.len(),
            chars@ == s,
            without_leading(s.take(point as int)) == without_leading(
                s.subrange(start as int, point as int),
            ),
        decreases point - start,
    {
        assert(s.subrange(start as int, point as int).drop_first() =~= s.subrange(
            start + 1,
            point as int,
        ));
        start += 1;
    }
    let mut out = text_part(&chars, start, point);
    assert(out@ == without_leading(s.take(point as int)));
    let ghost whole = out@;
    if point < chars.len() {
        let ghost fraction = fraction_of(s);
        let first: usize = point + 1;
        let mut end: usize = chars.len();
        while end > first && chars[end - 1] == '0'
            invariant
                first <= end <= chars.len(),
                chars@ == s,
                without_trailing(fraction) == without_trailing(
                    s.subrange(first as int, end as int),
                ),
            decreases end,
        {
            assert(s.subrange(first as int, end as int).drop_last() =~= s.subrange(
                first as int,
                end - 1,
            ));
            end -= 1;
        }
        assert(without_trailing(fraction) == s.subrange(first as int, end as int));
        if end > first {
            out.push('.');
            let rest = text_part(&chars, first, end);
            out.push_str(rest.as_str());
        }
    }
    out
}

} // verus!
