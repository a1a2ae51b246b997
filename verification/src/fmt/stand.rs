//! Comments stand in the formatted text at least as often as in the source.

use vstd::prelude::*;

use super::attributes::normalized;
use super::keep::{
    comments_are_kept, ends_last, in_atom, in_atoms, in_block, in_element, in_elements, in_group,
    in_items, in_line, in_lines, rooted, rooted_trees_stay_rooted, times,
};
use super::lines::{
    cleaned, lines_from, next_break, text_lines, trimmed_lines, without_breaks, without_return,
};
use super::print::{
    atom_text, block_broken, block_lines, break_order, broken_text, close_char, deeper,
    element_text, elements_text, fitted, flat_atom, flat_atoms, flat_block, flat_elements,
    flat_group, group_broken, line_text, open_char, own_remarks, program_lines, program_text,
    remarks_above, remarks_after, rendered, spaced,
};
use super::tree::{
    built, grown, merge_rest, remark_item, token_item, AtomT, BlockT, ElementT, GroupT, ItemT,
    LineT,
};
use crate::error::{is_white, trimmed_end};
use crate::lexer::{Remark, Tok};
use crate::source::text_between;
use crate::strings::joined;

verus! {

/// Whether `t` ends with `x`.
pub open spec fn ends_with(t: Seq<char>, x: Seq<char>) -> bool {
    x.len() <= t.len() && t.skip(t.len() - x.len()) == x
}

/// How often `x` stands in `t`.
pub open spec fn stands(t: Seq<char>, x: Seq<char>) -> nat
    decreases t.len(),
{
    if t.len() == 0 {
        0
    } else {
        stands(t.drop_last(), x) + if ends_with(t, x) {
            1nat
        } else {
            0nat
        }
    }
}

proof fn lemma_cat(a: Seq<char>, b: Seq<char>, x: Seq<char>)
    ensures
        stands(a + b, x) >= stands(a, x) + stands(b, x),
    decreases b.len(),
{
    if b.len() == 0 {
        assert(a + b =~= a);
    } else {
        lemma_cat(a, b.drop_last(), x);
        assert((a + b).drop_last() =~= a + b.drop_last());
        if ends_with(b, x) {
            assert((a + b).skip((a + b).len() - x.len()) =~= b.skip(b.len() - x.len()));
        }
    }
}

proof fn lemma_push(a: Seq<char>, c: char, x: Seq<char>)
    ensures
        stands(a.push(c), x) >= stands(a, x),
{
    assert(a.push(c).drop_last() =~= a);
}

proof fn lemma_itself(x: Seq<char>)
    requires
        x.len() > 0,
    ensures
        stands(x, x) >= 1,
{
    assert(x.skip(0) =~= x);
}

proof fn lemma_flat_atoms(s: Seq<AtomT>, x: Seq<char>)
    ensures
        flat_atoms(s) is Some ==> in_atoms(s, x) == 0,
    decreases s,
{
    if s.len() > 0 {
        lemma_flat_atoms(s.drop_last(), x);
        lemma_flat_atom(s.last(), x);
    }
}

proof fn lemma_flat_atom(a: AtomT, x: Seq<char>)
    ensures
        flat_atom(a) is Some ==> in_atom(a, x) == 0,
    decreases a,
{
    match a {
        AtomT::Leaf(_) => {},
        AtomT::Group(g) => lemma_flat_group(g, x),
        AtomT::Block(b) => lemma_flat_block(b, x),
    }
}

proof fn lemma_flat_elements(s: Seq<ElementT>, x: Seq<char>)
    ensures
        flat_elements(s) is Some ==> in_elements(s, x) == 0,
    decreases s,
{
    if s.len() > 0 {
        let last = s.last();
        lemma_flat_elements(s.drop_last(), x);
        lemma_flat_atoms(last.atoms, x);
        assert(in_element(last, x) == times(last.leading, x) + in_atoms(last.atoms, x) + times(
            last.trailing,
            x,
        ));
    }
}

proof fn lemma_flat_group(g: GroupT, x: Seq<char>)
    ensures
        flat_group(g) is Some ==> in_group(g, x) == 0,
    decreases g,
{
    lemma_flat_elements(g.elements, x);
}

proof fn lemma_flat_block(b: BlockT, x: Seq<char>)
    ensures
        flat_block(b) is Some ==> in_block(b, x) == 0,
    decreases b,
{
    if b.lines.len() == 1 {
        let l = b.lines[0];
        lemma_flat_atoms(l.atoms, x);
        assert(in_lines(b.lines.drop_last(), x) == 0);
        assert(b.lines.last() == l);
        assert(in_lines(b.lines, x) == in_line(l, x));
    }
}

proof fn lemma_spaced(out: Seq<char>, s: Seq<AtomT>, x: Seq<char>)
    ensures
        stands(spaced(out, s), x) >= stands(out, x),
{
    lemma_push(out, ' ', x);
}

proof fn lemma_fitted(s: Seq<AtomT>, pad: Seq<char>, cut: nat, x: Seq<char>)
    requires
        x.len() > 0,
    ensures
        stands(fitted(s, pad, cut), x) >= in_atoms(s, x),
    decreases s, 2nat, break_order(s).len() - cut,
{
    let order = break_order(s);
    if cut >= order.len() {
        lemma_rendered(s, pad, order, x);
    } else {
        lemma_rendered(s, pad, order.take(cut as int), x);
        lemma_fitted(s, pad, cut + 1, x);
    }
}

proof fn lemma_rendered(s: Seq<AtomT>, pad: Seq<char>, broken: Seq<int>, x: Seq<char>)
    requires
        x.len() > 0,
    ensures
        stands(rendered(s, pad, broken), x) >= in_atoms(s, x),
    decreases s, 1nat, 0int,
{
    if s.len() > 0 {
        let before = rendered(s.drop_last(), pad, broken);
        let text = atom_text(s.last(), pad, broken.contains(s.len() - 1));
        lemma_rendered(s.drop_last(), pad, broken, x);
        lemma_atom_text(s.last(), pad, broken.contains(s.len() - 1), x);
        lemma_spaced(before, s, x);
        lemma_cat(spaced(before, s), text, x);
    }
}

proof fn lemma_atom_text(a: AtomT, pad: Seq<char>, broken: bool, x: Seq<char>)
    requires
        x.len() > 0,
    ensures
        stands(atom_text(a, pad, broken), x) >= in_atom(a, x),
    decreases a, 0nat, 1int,
{
    lemma_flat_atom(a, x);
    lemma_broken_text(a, pad, x);
}

proof fn lemma_broken_text(a: AtomT, pad: Seq<char>, x: Seq<char>)
    requires
        x.len() > 0,
    ensures
        stands(broken_text(a, pad), x) >= in_atom(a, x),
    decreases a, 0nat, 0int,
{
    match a {
        AtomT::Leaf(_) => {},
        AtomT::Group(g) => lemma_group_broken(g, pad, x),
        AtomT::Block(b) => lemma_block_broken(b, pad, x),
    }
}

/// A comment after a text.
proof fn lemma_remark(out: Seq<char>, remark: Seq<char>, x: Seq<char>)
    requires
        x.len() > 0,
    ensures
        stands(out + remark, x) >= stands(out, x) + if remark == x {
            1nat
        } else {
            0nat
        },
{
    lemma_cat(out, remark, x);
    if remark == x {
        lemma_itself(x);
    }
}

proof fn lemma_remarks_above(out: Seq<char>, s: Seq<Seq<char>>, pad: Seq<char>, x: Seq<char>)
    requires
        x.len() > 0,
    ensures
        stands(remarks_above(out, s, pad), x) >= stands(out, x) + times(s, x),
    decreases s.len(),
{
    if s.len() > 0 {
        let before = remarks_above(out, s.drop_last(), pad);
        lemma_remarks_above(out, s.drop_last(), pad, x);
        lemma_push(before, '\n', x);
        lemma_cat(before.push('\n'), pad, x);
        lemma_remark(before.push('\n') + pad, s.last(), x);
    }
}

proof fn lemma_remarks_after(out: Seq<char>, s: Seq<Seq<char>>, x: Seq<char>)
    requires
        x.len() > 0,
    ensures
        stands(remarks_after(out, s), x) >= stands(out, x) + times(s, x),
    decreases s.len(),
{
    if s.len() > 0 {
        let before = remarks_after(out, s.drop_last());
        lemma_remarks_after(out, s.drop_last(), x);
        lemma_push(before, ' ', x);
        lemma_remark(before.push(' '), s.last(), x);
    }
}

proof fn lemma_own_remarks(s: Seq<Seq<char>>, pad: Seq<char>, x: Seq<char>)
    requires
        x.len() > 0,
    ensures
        stands(own_remarks(s, pad), x) >= times(s, x),
    decreases s.len(),
{
    if s.len() > 0 {
        let before = own_remarks(s.drop_last(), pad);
        lemma_own_remarks(s.drop_last(), pad, x);
        lemma_push(before, ' ', x);
        lemma_remark(before, s.last(), x);
        lemma_remark(before.push(' '), s.last(), x);
    }
}

proof fn lemma_element_text(out: Seq<char>, e: ElementT, pad: Seq<char>, x: Seq<char>)
    requires
        x.len() > 0,
    ensures
        stands(element_text(out, e, pad), x) >= stands(out, x) + in_element(e, x),
    decreases e, 0nat, 0int,
{
    let above = remarks_above(out, e.leading, pad);
    let text = fitted(e.atoms, pad, 0);
    lemma_remarks_above(out, e.leading, pad, x);
    lemma_push(above, '\n', x);
    lemma_fitted(e.atoms, pad, 0, x);
    lemma_cat(above.push('\n'), text, x);
    let written = above.push('\n') + text;
    lemma_push(written, ',', x);
    lemma_remarks_after(written.push(','), e.trailing, x);
}

proof fn lemma_elements_text(out: Seq<char>, s: Seq<ElementT>, pad: Seq<char>, x: Seq<char>)
    requires
        x.len() > 0,
    ensures
        stands(elements_text(out, s, pad), x) >= stands(out, x) + in_elements(s, x),
    decreases s, 0nat, 0int,
{
    if s.len() > 0 {
        lemma_elements_text(out, s.drop_last(), pad, x);
        lemma_element_text(elements_text(out, s.drop_last(), pad), s.last(), pad, x);
    }
}

proof fn lemma_group_broken(g: GroupT, pad: Seq<char>, x: Seq<char>)
    requires
        x.len() > 0,
    ensures
        stands(group_broken(g, pad), x) >= in_group(g, x),
    decreases g, 0nat, 0int,
{
    let inner = deeper(pad);
    let first = Seq::empty().push(open_char(g.kind));
    let out = elements_text(first, g.elements, inner);
    lemma_elements_text(first, g.elements, inner, x);
    let above = remarks_above(out, g.dangling, inner);
    lemma_remarks_above(out, g.dangling, inner, x);
    lemma_push(above, '\n', x);
    lemma_cat(above.push('\n'), pad, x);
    lemma_push(above.push('\n') + pad, close_char(g.kind), x);
}

proof fn lemma_block_broken(b: BlockT, pad: Seq<char>, x: Seq<char>)
    requires
        x.len() > 0,
    ensures
        stands(block_broken(b, pad), x) >= in_block(b, x),
    decreases b, 0nat, 0int,
{
    let out = block_lines("{"@, b.lines, deeper(pad));
    lemma_block_lines("{"@, b.lines, deeper(pad), x);
    lemma_push(out, '\n', x);
    lemma_cat(out.push('\n'), pad, x);
    lemma_push(out.push('\n') + pad, '}', x);
}

proof fn lemma_block_lines(out: Seq<char>, s: Seq<LineT>, pad: Seq<char>, x: Seq<char>)
    requires
        x.len() > 0,
    ensures
        stands(block_lines(out, s, pad), x) >= stands(out, x) + in_lines(s, x),
    decreases s, 0nat, 0int,
{
    if s.len() > 0 {
        let before = block_lines(out, s.drop_last(), pad);
        lemma_block_lines(out, s.drop_last(), pad, x);
        lemma_push(before, '\n', x);
        let ended = if s.len() > 1 && s.last().blank_before {
            before.push('\n')
        } else {
            before
        };
        lemma_push(ended, '\n', x);
        lemma_line_text(s.last(), pad, x);
        lemma_cat(ended.push('\n'), line_text(s.last(), pad), x);
    }
}

proof fn lemma_line_text(l: LineT, pad: Seq<char>, x: Seq<char>)
    requires
        x.len() > 0,
    ensures
        stands(line_text(l, pad), x) >= in_line(l, x),
    decreases l, 0nat, 0int,
{
    if l.atoms.len() == 0 {
        lemma_own_remarks(l.trailing, pad, x);
    } else {
        lemma_fitted(l.atoms, pad, 0, x);
        lemma_remarks_after(fitted(l.atoms, pad, 0), l.trailing, x);
    }
}

proof fn lemma_program_lines(s: Seq<LineT>, x: Seq<char>)
    requires
        x.len() > 0,
    ensures
        stands(program_lines(s), x) >= in_lines(s, x),
    decreases s.len(),
{
    if s.len() > 0 {
        let before = program_lines(s.drop_last());
        let text = line_text(s.last(), Seq::empty());
        lemma_program_lines(s.drop_last(), x);
        lemma_line_text(s.last(), Seq::empty(), x);
        lemma_cat(before, text, x);
        lemma_push(before, '\n', x);
        lemma_push(before.push('\n'), '\n', x);
        lemma_cat(before.push('\n'), text, x);
        lemma_cat(before.push('\n').push('\n'), text, x);
    }
}

/// Whether a text can be that of a comment: it has no newline and does not end with
/// white space.
pub open spec fn is_remark(x: Seq<char>) -> bool {
    &&& x.len() > 0 && !is_white(x[x.len() - 1])
    &&& forall|i: int| 0 <= i < x.len() ==> #[trigger] x[i] != '\n'
}

/// What has no newline stands on one side of each.
proof fn lemma_split(a: Seq<char>, b: Seq<char>, x: Seq<char>)
    requires
        is_remark(x),
    ensures
        stands(a.push('\n') + b, x) == stands(a, x) + stands(b, x),
    decreases b.len(),
{
    let t = a.push('\n') + b;
    if b.len() == 0 {
        assert(t =~= a.push('\n'));
        assert(a.push('\n').drop_last() =~= a);
        if ends_with(t, x) {
            assert(x[x.len() - 1] == t[t.len() - 1]);
        }
    } else {
        lemma_split(a, b.drop_last(), x);
        assert(t.drop_last() =~= a.push('\n') + b.drop_last());
        let k = t.len() - x.len();
        if x.len() <= b.len() {
            assert(t.skip(k) =~= b.skip(b.len() - x.len()));
        } else if ends_with(t, x) {
            assert(x[a.len() - k] == t[a.len() as int]);
        }
    }
}

proof fn lemma_trim(t: Seq<char>, x: Seq<char>)
    requires
        is_remark(x),
    ensures
        stands(trimmed_end(t), x) == stands(t, x),
    decreases t.len(),
{
    if t.len() > 0 && is_white(t.last()) {
        lemma_trim(t.drop_last(), x);
        if ends_with(t, x) {
            assert(x[x.len() - 1] == t[t.len() - 1]);
        }
    }
}

proof fn lemma_break(s: Seq<char>, i: int)
    requires
        0 <= i <= s.len(),
    ensures
        i <= next_break(s, i) <= s.len(),
        next_break(s, i) < s.len() ==> s[next_break(s, i)] == '\n',
    decreases s.len() - i,
{
    if i < s.len() && s[i] != '\n' {
        lemma_break(s, i + 1);
    }
}

proof fn lemma_lines(out: Seq<Seq<char>>, s: Seq<char>, i: int, x: Seq<char>)
    requires
        0 <= i <= s.len(),
        is_remark(x),
    ensures
        stands(joined(trimmed_lines(lines_from(out, s, i)), "\n"@), x) == stands(
            joined(trimmed_lines(out), "\n"@),
            x,
        ) + stands(s.skip(i), x),
    decreases s.len() - i,
{
    reveal_strlit("\n");
    if i < s.len() {
        lemma_break(s, i);
        let end = next_break(s, i);
        let line = s.subrange(i, end);
        let shown = if end >= s.len() {
            line
        } else {
            without_return(line)
        };
        let t = trimmed_end(shown);
        assert(t == trimmed_end(line));
        lemma_trim(line, x);
        let before = joined(trimmed_lines(out), "\n"@);
        let more = out.push(shown);
        let all = joined(trimmed_lines(more), "\n"@);
        assert(trimmed_lines(more) =~= trimmed_lines(out).push(t));
        assert(trimmed_lines(more).drop_last() =~= trimmed_lines(out));
        if out.len() == 0 {
            assert(all == t);
            assert(stands(before, x) == 0);
        } else {
            assert(all == before + "\n"@ + t);
            assert(before + "\n"@ =~= before.push('\n'));
            lemma_split(before, t, x);
        }
        if end < s.len() {
            lemma_split(line, s.skip(end + 1), x);
            assert(s.skip(i) =~= line.push('\n') + s.skip(end + 1));
            lemma_lines(more, s, end + 1, x);
        } else {
            assert(s.subrange(i, s.len() as int) == line);
            assert(s.skip(i) =~= line);
        }
    } else {
        assert(s.skip(i).len() == 0);
    }
}

proof fn lemma_without_breaks(s: Seq<char>, x: Seq<char>)
    requires
        is_remark(x),
    ensures
        stands(without_breaks(s), x) == stands(s, x),
    decreases s.len(),
{
    if s.len() > 0 && s.last() == '\n' {
        lemma_without_breaks(s.drop_last(), x);
        if ends_with(s, x) {
            assert(x[x.len() - 1] == s[s.len() - 1]);
        }
    }
}

proof fn lemma_cleaned(s: Seq<char>, x: Seq<char>)
    requires
        is_remark(x),
    ensures
        stands(cleaned(s), x) >= stands(s, x),
{
    let none: Seq<Seq<char>> = Seq::empty();
    assert(trimmed_lines(none) =~= none);
    lemma_lines(none, s, 0, x);
    assert(s.skip(0) =~= s);
    let whole = joined(trimmed_lines(text_lines(s)), "\n"@);
    lemma_without_breaks(whole, x);
    lemma_push(without_breaks(whole), '\n', x);
}

/// The texts of the comments of a source text.
pub open spec fn remark_texts(src: Seq<char>, comments: Seq<Remark>) -> Seq<Seq<char>> {
    comments.map_values(|c: Remark| trimmed_end(text_between(src, c.start, c.end)))
}

proof fn lemma_items_push(s: Seq<ItemT>, item: ItemT, x: Seq<char>)
    ensures
        in_items(s.push(item), x) == in_items(s, x) + match item {
            ItemT::Remark(text, _) => if text == x {
                1nat
            } else {
                0nat
            },
            _ => 0nat,
        },
{
    assert(s.push(item).drop_last() =~= s);
}

/// Whether an item ends the file.
pub open spec fn is_eof(item: ItemT) -> bool {
    item matches ItemT::Leaf(leaf, _) && leaf.kind is Eof
}

/// Whether only the last item ends the file.
spec fn eof_is_last(items: Seq<ItemT>) -> bool {
    forall|n: int| 0 <= n < items.len() - 1 ==> !is_eof(#[trigger] items[n])
}

/// What merging keeps: every comment, and the end of the file at the end.
proof fn lemma_merged(
    out: Seq<ItemT>,
    src: Seq<char>,
    ranges: Seq<(usize, usize)>,
    tokens: Seq<Tok>,
    comments: Seq<Remark>,
    i: int,
    j: int,
    x: Seq<char>,
)
    requires
        0 <= i < tokens.len(),
        0 <= j <= comments.len(),
        in_items(out, x) == times(remark_texts(src, comments).take(j), x),
        forall|n: int| 0 <= n < out.len() ==> !is_eof(#[trigger] out[n]),
        forall|n: int| 0 <= n < tokens.len() - 1 ==> !((#[trigger] tokens[n]).kind is Eof),
        forall|n: int|
            0 <= n < comments.len() ==> (#[trigger] comments[n]).start
                < tokens[tokens.len() - 1].start,
    ensures
        in_items(merge_rest(out, src, ranges, tokens, comments, i, j), x) == times(
            remark_texts(src, comments),
            x,
        ),
        eof_is_last(merge_rest(out, src, ranges, tokens, comments, i, j)),
    decreases (tokens.len() - i) + (comments.len() - j),
{
    let all = remark_texts(src, comments);
    if j == comments.len() || tokens[i].start <= comments[j].start {
        let item = token_item(src, ranges, tokens[i]);
        lemma_items_push(out, item, x);
        if i + 1 < tokens.len() {
            assert(!is_eof(item));
            lemma_merged(out.push(item), src, ranges, tokens, comments, i + 1, j, x);
        } else {
            assert(j == comments.len());
            assert(all.take(j) =~= all);
            assert(merge_rest(out.push(item), src, ranges, tokens, comments, i + 1, j) == out.push(
                item,
            ));
        }
    } else {
        let item = remark_item(src, comments[j]);
        lemma_items_push(out, item, x);
        let now = all.take(j + 1);
        assert(now.drop_last() =~= all.take(j));
        assert(now.last() == all[j]);
        lemma_merged(out.push(item), src, ranges, tokens, comments, i, j + 1, x);
    }
}

/// Whether the item at `n` is a `}` that closes nothing.
pub open spec fn is_stray(src: Seq<char>, items: Seq<ItemT>, n: int) -> bool {
    (items[n] matches ItemT::Leaf(leaf, _) && leaf.kind is RBrace) && grown(
        src,
        items.take(n),
    ).frames.len() <= 1
}

/// Whether no comment stands after a `}` that closes nothing.
pub open spec fn comments_come_first(src: Seq<char>, items: Seq<ItemT>) -> bool {
    forall|n: int, k: int|
        0 <= n < k < items.len() && #[trigger] is_stray(src, items, n) ==> !(
        #[trigger] items[k] is Remark)
}

proof fn lemma_first_stray(src: Seq<char>, items: Seq<ItemT>, m: int) -> (q: int)
    requires
        0 <= m <= items.len(),
    ensures
        0 <= q <= m,
        q < m ==> is_stray(src, items, q),
        forall|n: int| 0 <= n < q ==> !#[trigger] is_stray(src, items, n),
    decreases m,
{
    if m == 0 {
        0
    } else {
        let q = lemma_first_stray(src, items, m - 1);
        if q < m - 1 || is_stray(src, items, m - 1) {
            q
        } else {
            m
        }
    }
}

proof fn lemma_not_done(src: Seq<char>, items: Seq<ItemT>, q: int, n: int)
    requires
        eof_is_last(items),
        forall|k: int| 0 <= k < q ==> !#[trigger] is_stray(src, items, k),
        0 <= n < items.len(),
        n <= q,
    ensures
        !grown(src, items.take(n)).done,
        rooted(grown(src, items.take(n)).frames),
    decreases n,
{
    if n == 0 {
        assert(items.take(0).len() == 0);
    } else {
        lemma_not_done(src, items, q, n - 1);
        let before = items.take(n - 1);
        let t = grown(src, before);
        assert(items.take(n).drop_last() =~= before);
        assert(items.take(n).last() == items[n - 1]);
        assert(!is_eof(items[n - 1]));
        assert(!is_stray(src, items, n - 1));
        rooted_trees_stay_rooted(src, t, items[n - 1]);
        if t.frames.len() == 1 {
            assert(t.frames.last() == t.frames[0]);
        }
    }
}

/// What follows the end of a file is not in its tree.
proof fn lemma_rest_is_left(src: Seq<char>, items: Seq<ItemT>, m: int, n: int, x: Seq<char>)
    requires
        0 <= m <= n <= items.len(),
        grown(src, items.take(m)).done,
        forall|k: int| m <= k < items.len() ==> !(#[trigger] items[k] is Remark),
    ensures
        grown(src, items.take(n)) == grown(src, items.take(m)),
        in_items(items.take(n), x) == in_items(items.take(m), x),
    decreases n - m,
{
    if m < n {
        lemma_rest_is_left(src, items, m, n - 1, x);
        assert(items.take(n).drop_last() =~= items.take(n - 1));
        assert(items.take(n).last() == items[n - 1]);
    }
}

/// The comments among items of which none stands after a `}` that closes nothing.
proof fn lemma_kept(src: Seq<char>, items: Seq<ItemT>, x: Seq<char>)
    requires
        eof_is_last(items),
        comments_come_first(src, items),
    ensures
        in_lines(normalized(built(src, items)), x) == in_items(items, x),
{
    let q = lemma_first_stray(src, items, items.len() as int);
    let m = if q < items.len() {
        q + 1
    } else {
        q
    };
    let reached = items.take(m);
    assert(ends_last(src, reached)) by {
        assert forall|n: int| 0 <= n < reached.len() implies !(#[trigger] grown(
            src,
            reached.take(n),
        )).done by {
            assert(reached.take(n) =~= items.take(n));
            lemma_not_done(src, items, q, n);
        }
    }
    comments_are_kept(src, reached, x);
    if q < items.len() {
        lemma_not_done(src, items, q, q);
        let t = grown(src, items.take(q));
        assert(reached.drop_last() =~= items.take(q));
        assert(reached.last() == items[q]);
        assert(t.frames.last() == t.frames[0]);
        assert(grown(src, reached).done);
        lemma_rest_is_left(src, items, m, items.len() as int, x);
    }
    assert(items.take(items.len() as int) =~= items);
}

proof fn lemma_times_contains(s: Seq<Seq<char>>, x: Seq<char>) -> (k: int)
    requires
        times(s, x) > 0,
    ensures
        0 <= k < s.len(),
        s[k] == x,
    decreases s.len(),
{
    if s.last() == x {
        s.len() - 1
    } else {
        lemma_times_contains(s.drop_last(), x)
    }
}

/// The comments of a file are in its lines exactly as often as in its source, and
/// stand in the text of the lines at least as often, if none stands after a `}` that
/// closes nothing.
pub proof fn merged_comments_stand(
    src: Seq<char>,
    ranges: Seq<(usize, usize)>,
    tokens: Seq<Tok>,
    comments: Seq<Remark>,
    lines: Seq<LineT>,
    x: Seq<char>,
)
    requires
        tokens.len() > 0,
        forall|n: int| 0 <= n < tokens.len() - 1 ==> !((#[trigger] tokens[n]).kind is Eof),
        forall|n: int|
            0 <= n < comments.len() ==> (#[trigger] comments[n]).start
                < tokens[tokens.len() - 1].start,
        forall|n: int|
            0 <= n < comments.len() ==> is_remark(#[trigger] remark_texts(src, comments)[n]),
        comments_come_first(
            src,
            merge_rest(Seq::empty(), src, ranges, tokens, comments, 0, 0),
        ),
        lines == normalized(
            built(
                src,
                merge_rest(Seq::empty(), src, ranges, tokens, comments, 0, 0),
            ),
        ),
    ensures
        in_lines(lines, x) == times(remark_texts(src, comments), x),
        stands(program_text(lines), x) >= times(remark_texts(src, comments), x),
{
    let all = remark_texts(src, comments);
    let items = merge_rest(Seq::empty(), src, ranges, tokens, comments, 0, 0);
    assert(all.take(0).len() == 0);
    lemma_merged(Seq::empty(), src, ranges, tokens, comments, 0, 0, x);
    lemma_kept(src, items, x);
    if times(all, x) > 0 {
        let k = lemma_times_contains(all, x);
        assert(is_remark(all[k]));
        lemma_program_lines(lines, x);
        lemma_cleaned(program_lines(lines), x);
    }
}

} // verus!
