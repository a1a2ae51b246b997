//! Texts as lines.

use vstd::prelude::*;

use crate::error::{is_white, trim_end, trimmed_end};
use crate::strings::{chars_of, join, joined, text_part, texts};

verus! {

/// The maximum line width. A constant, not a setting.
pub const MAX_WIDTH: usize = 100;

/// The index of the first newline of `s` at or after `i`, or its length.
pub open spec fn next_break(s: Seq<char>, i: int) -> int
    decreases s.len() - i,
{
    if i >= s.len() || s[i] == '\n' {
        i
    } else {
        next_break(s, i + 1)
    }
}

/// A line without the carriage return before its newline.
pub open spec fn without_return(line: Seq<char>) -> Seq<char> {
    if line.len() > 0 && line.last() == '\r' {
        line.drop_last()
    } else {
        line
    }
}

/// The lines of `s` from character `i` on, after `out`.
pub open spec fn lines_from(out: Seq<Seq<char>>, s: Seq<char>, i: int) -> Seq<Seq<char>>
    decreases s.len() - i,
    via lines_from_decreases
{
    let end = next_break(s, i);
    if i < 0 || i >= s.len() {
        out
    } else if end >= s.len() {
        out.push(s.subrange(i, s.len() as int))
    } else {
        lines_from(out.push(without_return(s.subrange(i, end))), s, end + 1)
    }
}

#[via_fn]
proof fn lines_from_decreases(out: Seq<Seq<char>>, s: Seq<char>, i: int) {
    if 0 <= i < s.len() {
        lemma_next_break(s, i);
    }
}

proof fn lemma_next_break(s: Seq<char>, i: int)
    requires
        0 <= i <= s.len(),
    ensures
        i <= next_break(s, i) <= s.len(),
    decreases s.len() - i,
{
    if i < s.len() && s[i] != '\n' {
        lemma_next_break(s, i + 1);
    }
}

/// The lines of a text.
pub open spec fn text_lines(s: Seq<char>) -> Seq<Seq<char>> {
    lines_from(Seq::empty(), s, 0)
}

/// Splits a text into its lines.
pub fn split_lines(text: &str) -> (r: Vec<String>)
    ensures
        texts(r@) == text_lines(text@),
{
    let chars = chars_of(text);
    let ghost s = text@;
    let mut out: Vec<String> = Vec::new();
    let mut i: usize = 0;
    assert(texts(out@) =~= Seq::<Seq<char>>::empty());
    while i < chars.len()
        invariant
            i <= chars.len(),
            chars@ == s,
            text_lines(s) == lines_from(texts(out@), s, i as int),
        decreases chars.len() - i,
    {
        let ghost before = texts(out@);
        let mut end: usize = i;
        while end < chars.len() && chars[end] != '\n'
            invariant
                i <= end <= chars.len(),
                chars@ == s,
                next_break(s, i as int) == next_break(s, end as int),
            decreases chars.len() - end,
        {
            end += 1;
        }
        if end == chars.len() {
            out.push(text_part(&chars, i, end));
            assert(texts(out@) =~= before.push(s.subrange(i as int, end as int)));
            i = end;
        } else {
            let stop: usize = if end > i && chars[end - 1] == '\r' {
                end - 1
            } else {
                end
            };
            out.push(text_part(&chars, i, stop));
            proof {
                let line = s.subrange(i as int, end as int);
                assert(stop < end ==> line.drop_last() =~= s.subrange(i as int, stop as int));
                assert(texts(out@) =~= before.push(without_return(line)));
            }
            i = end + 1;
        }
    }
    out
}

/// Whether no line of a text is wider than [`MAX_WIDTH`].
pub open spec fn fitting(s: Seq<char>) -> bool {
    forall|i: int|
        0 <= i < text_lines(s).len() ==> (#[trigger] text_lines(s)[i]).len() <= MAX_WIDTH
}

/// Whether no line of a text is wider than [`MAX_WIDTH`].
pub fn fits(text: &str) -> (r: bool)
    ensures
        r == fitting(text@),
{
    let split = split_lines(text);
    let ghost all = text_lines(text@);
    let mut i: usize = 0;
    assert(all.len() == split@.len());
    while i < split.len()
        invariant
            i <= split.len(),
            texts(split@) == all,
            all == text_lines(text@),
            all.len() == split@.len(),
            forall|k: int| 0 <= k < i ==> (#[trigger] all[k]).len() <= MAX_WIDTH,
        decreases split.len() - i,
    {
        let chars = chars_of(split[i].as_str());
        assert(all[i as int] == split@[i as int]@);
        if chars.len() > MAX_WIDTH {
            return false;
        }
        i += 1;
    }
    true
}

/// A text without the newlines at its end.
pub open spec fn without_breaks(s: Seq<char>) -> Seq<char>
    decreases s.len(),
{
    if s.len() > 0 && s.last() == '\n' {
        without_breaks(s.drop_last())
    } else {
        s
    }
}

/// The lines without the white space at their ends.
pub open spec fn trimmed_lines(s: Seq<Seq<char>>) -> Seq<Seq<char>> {
    s.map_values(|line: Seq<char>| trimmed_end(line))
}

/// A text without white space at the end of a line, that ends with exactly one
/// newline; an empty text stays empty.
pub open spec fn cleaned(s: Seq<char>) -> Seq<char> {
    let body = without_breaks(joined(trimmed_lines(text_lines(s)), "\n"@));
    if body.len() == 0 {
        body
    } else {
        body.push('\n')
    }
}

/// Cleans a text.
pub fn clean(text: &str) -> (r: String)
    ensures
        r@ == cleaned(text@),
{
    let split = split_lines(text);
    let ghost all = text_lines(text@);
    let mut trimmed: Vec<String> = Vec::new();
    let mut i: usize = 0;
    while i < split.len()
        invariant
            i <= split.len(),
            texts(split@) == all,
            trimmed@.len() == i,
            forall|k: int|
                0 <= k < i ==> (#[trigger] trimmed@[k])@ == trimmed_end(split@[k]@),
        decreases split.len() - i,
    {
        trimmed.push(trim_end(split[i].as_str()));
        i += 1;
    }
    proof {
        assert(texts(trimmed@).len() == trimmed_lines(all).len());
        assert forall|k: int| 0 <= k < trimmed@.len() implies texts(trimmed@)[k]
            == trimmed_lines(all)[k] by {
            assert(all[k] == split@[k]@);
        }
        assert(texts(trimmed@) =~= trimmed_lines(all));
    }
    let whole = join(&trimmed, "\n");
    let chars = chars_of(whole.as_str());
    let ghost w = whole@;
    let mut end: usize = chars.len();
    assert(w.subrange(0, end as int) =~= w);
    while end > 0 && chars[end - 1] == '\n'
        invariant
            end <= chars.len(),
            chars@ == w,
            without_breaks(w) == without_breaks(w.subrange(0, end as int)),
        decreases end,
    {
        assert(w.subrange(0, end as int).drop_last() =~= w.subrange(0, end - 1));
        end -= 1;
    }
    let mut out = text_part(&chars, 0, end);
    if end > 0 {
        out.push('\n');
    }
    out
}

proof fn lemma_without_breaks(s: Seq<char>)
    ensures
        without_breaks(s).len() > 0 ==> without_breaks(s).last() != '\n',
    decreases s.len(),
{
    if s.len() > 0 && s.last() == '\n' {
        lemma_without_breaks(s.drop_last());
    }
}

/// A cleaned text is empty or ends with exactly one newline.
pub proof fn cleaned_text_ends_once(s: Seq<char>)
    ensures
        cleaned(s).len() == 0 || (cleaned(s).last() == '\n' && cleaned(s).len() >= 2
            && cleaned(s)[cleaned(s).len() - 2] != '\n'),
{
    lemma_without_breaks(joined(trimmed_lines(text_lines(s)), "\n"@));
}

/// Whether no line of a text ends with white space.
pub open spec fn is_tidy(s: Seq<char>) -> bool {
    forall|i: int|
        0 < i < s.len() && #[trigger] s[i] == '\n' ==> s[i - 1] == '\n' || !is_white(s[i - 1])
}

/// Whether a text does not end with white space other than a newline.
spec fn ends_tidy(s: Seq<char>) -> bool {
    s.len() > 0 ==> s.last() == '\n' || !is_white(s.last())
}

proof fn lemma_next_break_is_first(s: Seq<char>, i: int)
    requires
        0 <= i <= s.len(),
    ensures
        i <= next_break(s, i) <= s.len(),
        forall|k: int| i <= k < next_break(s, i) ==> s[k] != '\n',
    decreases s.len() - i,
{
    if i < s.len() && s[i] != '\n' {
        lemma_next_break_is_first(s, i + 1);
    }
}

/// Whether no line of a list holds a newline.
spec fn unbroken(s: Seq<Seq<char>>) -> bool {
    forall|i: int| 0 <= i < s.len() ==> !(#[trigger] s[i]).contains('\n')
}

proof fn lemma_unbroken(out: Seq<Seq<char>>, s: Seq<char>, i: int)
    requires
        unbroken(out),
        0 <= i,
    ensures
        unbroken(lines_from(out, s, i)),
    decreases s.len() - i,
{
    if i < s.len() {
        lemma_next_break_is_first(s, i);
        let end = next_break(s, i);
        let line = if end >= s.len() {
            s.subrange(i, s.len() as int)
        } else {
            without_return(s.subrange(i, end))
        };
        assert(!line.contains('\n')) by {
            if line.contains('\n') {
                let k = choose|k: int| 0 <= k < line.len() && line[k] == '\n';
                assert(line[k] == s[i + k]);
            }
        }
        let more = out.push(line);
        assert(unbroken(more)) by {
            assert forall|k: int| 0 <= k < more.len() implies !(#[trigger] more[k]).contains(
                '\n',
            ) by {
                if k < out.len() {
                    assert(more[k] == out[k]);
                }
            }
        }
        if end < s.len() {
            lemma_unbroken(more, s, end + 1);
        }
    }
}

proof fn lemma_trimmed(s: Seq<char>)
    ensures
        trimmed_end(s).len() > 0 ==> !is_white(trimmed_end(s).last()),
        forall|i: int| 0 <= i < trimmed_end(s).len() ==> #[trigger] trimmed_end(s)[i] == s[i],
        trimmed_end(s).len() <= s.len(),
    decreases s.len(),
{
    if s.len() > 0 && is_white(s.last()) {
        lemma_trimmed(s.drop_last());
    }
}

proof fn lemma_joined_is_tidy(parts: Seq<Seq<char>>)
    requires
        forall|i: int|
            0 <= i < parts.len() ==> !(#[trigger] parts[i]).contains('\n') && (parts[i].len() > 0
                ==> !is_white(parts[i].last())),
    ensures
        is_tidy(joined(parts, "\n"@)),
        ends_tidy(joined(parts, "\n"@)),
    decreases parts.len(),
{
    reveal_strlit("\n");
    let all = joined(parts, "\n"@);
    if parts.len() == 1 {
        assert(!parts[0].contains('\n'));
    } else if parts.len() > 1 {
        let front = parts.drop_last();
        assert forall|i: int| 0 <= i < front.len() implies !(#[trigger] front[i]).contains('\n')
            && (front[i].len() > 0 ==> !is_white(front[i].last())) by {
            assert(front[i] == parts[i]);
        }
        lemma_joined_is_tidy(front);
        let before = joined(front, "\n"@);
        let last = parts.last();
        assert(!parts[parts.len() - 1].contains('\n'));
        assert(all == before + "\n"@ + last);
        assert forall|i: int| 0 < i < all.len() && #[trigger] all[i] == '\n' implies all[i - 1]
            == '\n' || !is_white(all[i - 1]) by {
            if i < before.len() {
                assert(all[i] == before[i] && all[i - 1] == before[i - 1]);
            } else if i == before.len() {
                assert(all[i - 1] == before.last());
            } else {
                assert(last[i - before.len() - 1] == '\n');
                assert(last.contains('\n'));
            }
        }
        if last.len() > 0 {
            assert(all.last() == last.last());
        } else {
            assert(all.last() == '\n');
        }
    }
}

proof fn lemma_without_breaks_is_tidy(s: Seq<char>)
    requires
        is_tidy(s),
        ends_tidy(s),
    ensures
        is_tidy(without_breaks(s)),
        ends_tidy(without_breaks(s)),
    decreases s.len(),
{
    if s.len() > 0 && s.last() == '\n' {
        let front = s.drop_last();
        assert(is_tidy(front)) by {
            assert forall|i: int| 0 < i < front.len() && #[trigger] front[i] == '\n' implies front[
                i - 1] == '\n' || !is_white(front[i - 1]) by {
                assert(s[i] == front[i]);
            }
        }
        if front.len() > 0 {
            assert(s[s.len() - 1] == '\n');
        }
        lemma_without_breaks_is_tidy(front);
    }
}

/// No line of a cleaned text ends with white space.
pub proof fn cleaned_lines_end_tidily(s: Seq<char>)
    ensures
        is_tidy(cleaned(s)),
{
    let lines = text_lines(s);
    lemma_unbroken(Seq::empty(), s, 0);
    let parts = trimmed_lines(lines);
    assert forall|i: int| 0 <= i < parts.len() implies !(#[trigger] parts[i]).contains('\n') && (
    parts[i].len() > 0 ==> !is_white(parts[i].last())) by {
        lemma_trimmed(lines[i]);
        assert(!lines[i].contains('\n'));
        if parts[i].contains('\n') {
            let k = choose|k: int| 0 <= k < parts[i].len() && parts[i][k] == '\n';
            assert(lines[i][k] == '\n');
        }
    }
    lemma_joined_is_tidy(parts);
    let whole = joined(parts, "\n"@);
    lemma_without_breaks_is_tidy(whole);
    let body = without_breaks(whole);
    if body.len() > 0 {
        let done = body.push('\n');
        assert forall|i: int| 0 < i < done.len() && #[trigger] done[i] == '\n' implies done[i - 1]
            == '\n' || !is_white(done[i - 1]) by {
            if i < body.len() {
                assert(done[i] == body[i] && done[i - 1] == body[i - 1]);
            } else {
                assert(done[i - 1] == body.last());
            }
        }
    }
}

/// The lines of a text without white space at their ends, from the character after
/// a newline on.
proof fn lemma_tidy_lines(out: Seq<Seq<char>>, s: Seq<char>, i: int)
    requires
        is_tidy(s),
        s.len() > 0 && s[s.len() - 1] == '\n',
        0 <= i <= s.len(),
        if i == 0 {
            out.len() == 0
        } else {
            out.len() > 0 && s[i - 1] == '\n' && joined(trimmed_lines(out), "\n"@) == s.take(i - 1)
        },
    ensures
        joined(trimmed_lines(lines_from(out, s, i)), "\n"@) == s.drop_last(),
    decreases s.len() - i,
{
    reveal_strlit("\n");
    if i < s.len() {
        lemma_next_break_is_first(s, i);
        lemma_break_is_newline(s, i);
        let end = next_break(s, i);
        if end >= s.len() {
            assert(s[s.len() - 1] != '\n');
        }
        let line = s.subrange(i, end);
        if i < end {
            assert(line.last() == s[end - 1]);
            assert(s[end] == '\n');
            assert(!is_white(s[end - 1]));
        }
        assert(without_return(line) == line);
        assert(trimmed_end(line) == line);
        let more = out.push(line);
        assert(trimmed_lines(more) =~= trimmed_lines(out).push(line));
        assert(trimmed_lines(more).drop_last() =~= trimmed_lines(out));
        assert(joined(trimmed_lines(more), "\n"@) =~= s.take(end));
        lemma_tidy_lines(more, s, end + 1);
    } else {
        assert(s.take(i - 1) =~= s.drop_last());
    }
}

proof fn lemma_break_is_newline(s: Seq<char>, i: int)
    requires
        0 <= i <= s.len(),
    ensures
        next_break(s, i) < s.len() ==> s[next_break(s, i)] == '\n',
    decreases s.len() - i,
{
    if i < s.len() && s[i] != '\n' {
        lemma_break_is_newline(s, i + 1);
    }
}

/// Cleaning a clean text changes nothing.
pub proof fn clean_texts_stay(s: Seq<char>)
    ensures
        cleaned(cleaned(s)) == cleaned(s),
{
    let t = cleaned(s);
    cleaned_text_ends_once(s);
    cleaned_lines_end_tidily(s);
    let none: Seq<Seq<char>> = Seq::empty();
    if t.len() == 0 {
        assert(text_lines(t) == none);
        assert(trimmed_lines(none) =~= none);
    } else {
        lemma_tidy_lines(none, t, 0);
        let body = t.drop_last();
        assert(body.last() == t[t.len() - 2]);
        assert(without_breaks(body) == body);
        assert(body.push('\n') =~= t);
    }
}

/// A newline at the end of a text adds no line.
proof fn lemma_same_lines(out: Seq<Seq<char>>, s: Seq<char>, i: int)
    requires
        0 <= i <= s.len(),
        s.len() > 0,
        s.last() != '\n',
        s.last() != '\r',
    ensures
        lines_from(out, s.push('\n'), i) == lines_from(out, s, i) || i == s.len(),
    decreases s.len() - i,
{
    let t = s.push('\n');
    if i < s.len() {
        lemma_next_break_is_first(s, i);
        lemma_next_break_is_first(t, i);
        lemma_break_is_newline(s, i);
        lemma_break_is_newline(t, i);
        let a = next_break(s, i);
        let b = next_break(t, i);
        assert(t[s.len() as int] == '\n');
        if a < b {
            if a < s.len() {
                assert(t[a] == s[a]);
            }
            assert(t[a] == '\n');
        }
        if b < a {
            assert(t[b] == s[b]);
        }
        assert(a == b);
        if a >= s.len() {
            let line = s.subrange(i, s.len() as int);
            assert(t.subrange(i, b) =~= line);
            assert(line.last() == s.last());
            assert(without_return(line) == line);
            assert(lines_from(out.push(line), t, b + 1) == out.push(line));
        } else {
            assert(t.subrange(i, b) =~= s.subrange(i, a));
            if a + 1 < s.len() {
                lemma_same_lines(out.push(without_return(s.subrange(i, a))), s, a + 1);
            } else {
                assert(s.last() == s[a]);
            }
        }
    }
}

/// Cleaning a text that has no white space at the end of a line, nor at its own end,
/// adds a newline and changes nothing else.
pub proof fn tidy_texts_are_clean(s: Seq<char>)
    requires
        is_tidy(s),
        s.len() > 0,
        !is_white(s.last()),
    ensures
        cleaned(s) == s.push('\n'),
{
    let t = s.push('\n');
    let none: Seq<Seq<char>> = Seq::empty();
    assert(is_white('\n') && is_white('\r'));
    assert forall|i: int| 0 < i < t.len() && #[trigger] t[i] == '\n' implies t[i - 1] == '\n'
        || !is_white(t[i - 1]) by {
        if i < s.len() {
            assert(t[i] == s[i] && t[i - 1] == s[i - 1]);
        } else {
            assert(t[i - 1] == s.last());
        }
    }
    lemma_same_lines(none, s, 0);
    lemma_tidy_lines(none, t, 0);
    assert(t.drop_last() =~= s);
    assert(without_breaks(s) == s);
}

} // verus!
