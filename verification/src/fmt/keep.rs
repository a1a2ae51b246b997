//! The formatter keeps comments: each is in the tree of lines exactly as often
//! as it is in the source.

use vstd::prelude::*;

use super::attributes::{attribute_len, normalized, split_line, starts_with_attribute};
use super::tree::{
    advance, built, close_group, close_lines, closed, end_element, end_line, ends_with_comma,
    finished, frame_atoms, group_remark, grow, grown, lines_remark, no_lines, plain_token,
    with_atom, AtomT, BlockT, ElementT, FrameT, GroupT, ItemT, LeafT, LineT, NextT, OpenGroupT,
    OpenLinesT, TreeT,
};

verus! {

/// How often `x` is in a list of comments.
pub open spec fn times(s: Seq<Seq<char>>, x: Seq<char>) -> nat
    decreases s.len(),
{
    if s.len() == 0 {
        0
    } else {
        times(s.drop_last(), x) + if s.last() == x {
            1nat
        } else {
            0nat
        }
    }
}

/// How often the comment `x` is in an atom.
pub open spec fn in_atom(a: AtomT, x: Seq<char>) -> nat
    decreases a,
{
    match a {
        AtomT::Leaf(_) => 0,
        AtomT::Group(g) => in_group(g, x),
        AtomT::Block(b) => in_block(b, x),
    }
}

/// How often the comment `x` is in a group.
pub open spec fn in_group(g: GroupT, x: Seq<char>) -> nat
    decreases g,
{
    in_elements(g.elements, x) + times(g.dangling, x)
}

/// How often the comment `x` is in a block.
pub open spec fn in_block(b: BlockT, x: Seq<char>) -> nat
    decreases b,
{
    in_lines(b.lines, x)
}

/// How often the comment `x` is in atoms.
pub open spec fn in_atoms(s: Seq<AtomT>, x: Seq<char>) -> nat
    decreases s,
{
    if s.len() == 0 {
        0
    } else {
        in_atoms(s.drop_last(), x) + in_atom(s.last(), x)
    }
}

/// How often the comment `x` is in an element of a group.
pub open spec fn in_element(e: ElementT, x: Seq<char>) -> nat
    decreases e,
{
    times(e.leading, x) + in_atoms(e.atoms, x) + times(e.trailing, x)
}

/// How often the comment `x` is in elements of a group.
pub open spec fn in_elements(s: Seq<ElementT>, x: Seq<char>) -> nat
    decreases s,
{
    if s.len() == 0 {
        0
    } else {
        in_elements(s.drop_last(), x) + in_element(s.last(), x)
    }
}

/// How often the comment `x` is in a line.
pub open spec fn in_line(l: LineT, x: Seq<char>) -> nat
    decreases l,
{
    in_atoms(l.atoms, x) + times(l.trailing, x)
}

/// How often the comment `x` is in lines.
pub open spec fn in_lines(s: Seq<LineT>, x: Seq<char>) -> nat
    decreases s,
{
    if s.len() == 0 {
        0
    } else {
        in_lines(s.drop_last(), x) + in_line(s.last(), x)
    }
}

/// How often the comment `x` is in open lines.
spec fn in_open_lines(l: OpenLinesT, x: Seq<char>) -> nat {
    in_lines(l.lines, x) + in_atoms(l.atoms, x) + times(l.trailing, x)
}

/// How often the comment `x` is in an open group.
spec fn in_open_group(g: OpenGroupT, x: Seq<char>) -> nat {
    in_elements(g.elements, x) + in_atoms(g.atoms, x) + times(g.trailing, x) + times(
        g.pending,
        x,
    )
}

/// How often the comment `x` is in a frame.
spec fn in_frame(f: FrameT, x: Seq<char>) -> nat {
    match f {
        FrameT::Lines(l) => in_open_lines(l, x),
        FrameT::Group(g) => in_open_group(g, x),
    }
}

/// How often the comment `x` is in frames.
spec fn in_frames(s: Seq<FrameT>, x: Seq<char>) -> nat
    decreases s.len(),
{
    if s.len() == 0 {
        0
    } else {
        in_frames(s.drop_last(), x) + in_frame(s.last(), x)
    }
}

/// How often the comment `x` is among items.
pub open spec fn in_items(s: Seq<ItemT>, x: Seq<char>) -> nat
    decreases s.len(),
{
    if s.len() == 0 {
        0
    } else {
        in_items(s.drop_last(), x) + match s.last() {
            ItemT::Remark(text, _) => if text == x {
                1nat
            } else {
                0nat
            },
            _ => 0nat,
        }
    }
}

proof fn lemma_times_push(s: Seq<Seq<char>>, t: Seq<char>, x: Seq<char>)
    ensures
        times(s.push(t), x) == times(s, x) + if t == x {
            1nat
        } else {
            0nat
        },
{
    assert(s.push(t).drop_last() =~= s);
}

proof fn lemma_atoms_push(s: Seq<AtomT>, a: AtomT, x: Seq<char>)
    ensures
        in_atoms(s.push(a), x) == in_atoms(s, x) + in_atom(a, x),
{
    assert(s.push(a).drop_last() =~= s);
}

proof fn lemma_elements_push(s: Seq<ElementT>, e: ElementT, x: Seq<char>)
    ensures
        in_elements(s.push(e), x) == in_elements(s, x) + in_element(e, x),
{
    assert(s.push(e).drop_last() =~= s);
}

proof fn lemma_lines_push(s: Seq<LineT>, l: LineT, x: Seq<char>)
    ensures
        in_lines(s.push(l), x) == in_lines(s, x) + in_line(l, x),
{
    assert(s.push(l).drop_last() =~= s);
}

proof fn lemma_frames_push(s: Seq<FrameT>, f: FrameT, x: Seq<char>)
    ensures
        in_frames(s.push(f), x) == in_frames(s, x) + in_frame(f, x),
{
    assert(s.push(f).drop_last() =~= s);
}

proof fn lemma_end_line(l: OpenLinesT, x: Seq<char>)
    ensures
        in_lines(end_line(l).lines, x) == in_open_lines(l, x),
        in_open_lines(end_line(l), x) == in_open_lines(l, x),
{
    if l.atoms.len() == 0 && l.trailing.len() == 0 {
    } else {
        let kept = if ends_with_comma(l.atoms) {
            l.atoms.drop_last()
        } else {
            l.atoms
        };
        if ends_with_comma(l.atoms) {
            assert(in_atom(l.atoms.last(), x) == 0);
        }
        assert(in_atoms(kept, x) == in_atoms(l.atoms, x));
        lemma_lines_push(
            l.lines,
            LineT { blank_before: l.blank, atoms: kept, trailing: l.trailing },
            x,
        );
    }
}

proof fn lemma_end_element(g: OpenGroupT, x: Seq<char>)
    ensures
        in_open_group(end_element(g), x) == in_open_group(g, x),
{
    lemma_elements_push(
        g.elements,
        ElementT { leading: g.pending, atoms: g.atoms, trailing: g.trailing },
        x,
    );
}

proof fn lemma_closed(f: FrameT, x: Seq<char>)
    ensures
        in_atom(closed(f), x) == in_frame(f, x),
{
    match f {
        FrameT::Lines(l) => {
            lemma_end_line(l, x);
            assert(in_block(close_lines(l), x) == in_lines(end_line(l).lines, x));
        },
        FrameT::Group(g) => {
            lemma_end_element(g, x);
            let c = close_group(g);
            assert(in_group(c, x) == in_elements(c.elements, x) + times(c.dangling, x));
        },
    }
}

proof fn lemma_with_atom(f: FrameT, a: AtomT, x: Seq<char>)
    ensures
        in_frame(with_atom(f, a), x) == in_frame(f, x) + in_atom(a, x),
{
    lemma_atoms_push(frame_atoms(f), a, x);
}

proof fn lemma_lines_remark(l: OpenLinesT, text: Seq<char>, x: Seq<char>)
    ensures
        in_open_lines(lines_remark(l, text), x) == in_open_lines(l, x) + if text == x {
            1nat
        } else {
            0nat
        },
{
    if l.atoms.len() == 0 && l.trailing.len() == 0 {
        let line = LineT { blank_before: l.blank, atoms: Seq::empty(), trailing: seq![text] };
        lemma_lines_push(l.lines, line, x);
        lemma_times_push(Seq::empty(), text, x);
        assert(seq![text] =~= Seq::<Seq<char>>::empty().push(text));
    } else {
        lemma_times_push(l.trailing, text, x);
    }
}

proof fn lemma_group_remark(src: Seq<char>, g: OpenGroupT, text: Seq<char>, start: nat, x: Seq<char>)
    ensures
        in_open_group(group_remark(src, g, text, start), x) == in_open_group(g, x) + if text
            == x {
            1nat
        } else {
            0nat
        },
{
    lemma_times_push(g.trailing, text, x);
    lemma_times_push(g.pending, text, x);
    if g.elements.len() > 0 {
        let last = g.elements.last();
        lemma_times_push(last.trailing, text, x);
        let more = ElementT { trailing: last.trailing.push(text), ..last };
        lemma_elements_push(g.elements.drop_last(), more, x);
        assert(in_element(more, x) == in_element(last, x) + if text == x {
            1nat
        } else {
            0nat
        });
        assert(in_elements(g.elements, x) == in_elements(g.elements.drop_last(), x) + in_element(
            last,
            x,
        ));
    }
}

proof fn lemma_plain_token(f: FrameT, leaf: LeafT, x: Seq<char>)
    ensures
        in_frame(plain_token(f, leaf), x) == in_frame(f, x),
{
    lemma_with_atom(f, AtomT::Leaf(leaf), x);
    match f {
        FrameT::Lines(l) => lemma_end_line(l, x),
        FrameT::Group(g) => lemma_end_element(g, x),
    }
}

/// One more item adds to the tree the comment that it is, if it is one.
proof fn lemma_grow(src: Seq<char>, t: TreeT, item: ItemT, x: Seq<char>)
    requires
        !t.done,
        t.frames.len() > 0,
    ensures
        in_frames(grow(src, t, item).frames, x) == in_frames(t.frames, x) + match item {
            ItemT::Remark(text, _) => if text == x {
                1nat
            } else {
                0nat
            },
            _ => 0nat,
        },
{
    let rest = t.frames.drop_last();
    let top = t.frames.last();
    match item {
        ItemT::Remark(text, start) => {
            match top {
                FrameT::Lines(l) => {
                    lemma_lines_remark(l, text, x);
                    lemma_frames_push(rest, FrameT::Lines(lines_remark(l, text)), x);
                },
                FrameT::Group(g) => {
                    lemma_group_remark(src, g, text, start, x);
                    lemma_frames_push(
                        rest,
                        FrameT::Group(group_remark(src, g, text, start)),
                        x,
                    );
                },
            }
        },
        ItemT::Leaf(leaf, end) => {
            let noted = match top {
                FrameT::Lines(l) => FrameT::Lines(l),
                FrameT::Group(g) => FrameT::Group(OpenGroupT { code_end: end, ..g }),
            };
            assert(in_frame(noted, x) == in_frame(top, x));
            match advance(top, t.frames.len() == 1, leaf, end) {
                NextT::Stay(f) => {
                    lemma_plain_token(noted, leaf, x);
                    lemma_frames_push(rest, f, x);
                },
                NextT::Open(f, inner) => {
                    lemma_frames_push(rest, f, x);
                    lemma_frames_push(rest.push(f), inner, x);
                    assert(in_frame(inner, x) == 0);
                },
                NextT::Close(a) => {
                    assert(rest.len() > 0);
                    assert(in_frames(rest, x) == in_frames(rest.drop_last(), x) + in_frame(
                        rest.last(),
                        x,
                    ));
                    lemma_closed(top, x);
                    lemma_with_atom(rest.last(), a, x);
                    lemma_frames_push(rest.drop_last(), with_atom(rest.last(), a), x);
                },
                NextT::Stop(f) => lemma_frames_push(rest, f, x),
            }
        },
    }
}

/// Whether the outermost frame is one of lines.
pub open spec fn rooted(s: Seq<FrameT>) -> bool {
    s.len() > 0 && s[0] is Lines
}

pub proof fn rooted_trees_stay_rooted(src: Seq<char>, t: TreeT, item: ItemT)
    requires
        rooted(t.frames),
    ensures
        rooted(grow(src, t, item).frames),
{
    let rest = t.frames.drop_last();
    let top = t.frames.last();
    if !t.done {
        match item {
            ItemT::Remark(_, _) => {},
            ItemT::Leaf(leaf, end) => {
                match advance(top, t.frames.len() == 1, leaf, end) {
                    NextT::Close(_) => {
                        assert(rest.len() > 0);
                        assert(rest[0] == t.frames[0]);
                    },
                    _ => {},
                }
            },
        }
    }
}

proof fn lemma_finished(s: Seq<FrameT>, x: Seq<char>)
    requires
        rooted(s),
    ensures
        in_lines(finished(s), x) == in_frames(s, x),
    decreases s.len(),
{
    if s.len() == 1 {
        if let FrameT::Lines(l) = s[0] {
            lemma_end_line(l, x);
        }
        assert(in_frames(s.drop_last(), x) == 0);
        assert(in_frames(s, x) == in_frame(s[0], x));
    } else {
        let rest = s.drop_last();
        let a = closed(s.last());
        assert(in_frames(rest, x) == in_frames(rest.drop_last(), x) + in_frame(rest.last(), x));
        let next = rest.drop_last().push(with_atom(rest.last(), a));
        lemma_closed(s.last(), x);
        lemma_with_atom(rest.last(), a, x);
        lemma_frames_push(rest.drop_last(), with_atom(rest.last(), a), x);
        assert(rooted(next)) by {
            if rest.len() > 1 {
                assert(next[0] == s[0]);
            }
        }
        lemma_finished(next, x);
    }
}

/// Whether the tokens end only with the last item.
pub open spec fn ends_last(src: Seq<char>, items: Seq<ItemT>) -> bool {
    forall|n: int| 0 <= n < items.len() ==> !(#[trigger] grown(src, items.take(n))).done
}

proof fn lemma_grown(src: Seq<char>, items: Seq<ItemT>, n: int, x: Seq<char>)
    requires
        ends_last(src, items),
        0 <= n <= items.len(),
    ensures
        in_frames(grown(src, items.take(n)).frames, x) == in_items(items.take(n), x),
        rooted(grown(src, items.take(n)).frames),
    decreases n,
{
    let now = items.take(n);
    if n == 0 {
        let first = FrameT::Lines(no_lines());
        lemma_frames_push(Seq::empty(), first, x);
        assert(seq![first] =~= Seq::<FrameT>::empty().push(first));
    } else {
        lemma_grown(src, items, n - 1, x);
        assert(now.drop_last() =~= items.take(n - 1));
        assert(now.last() == items[n - 1]);
        let t = grown(src, items.take(n - 1));
        lemma_grow(src, t, items[n - 1], x);
        rooted_trees_stay_rooted(src, t, items[n - 1]);
    }
}

proof fn lemma_split(s: Seq<AtomT>, n: int, x: Seq<char>)
    requires
        0 <= n <= s.len(),
    ensures
        in_atoms(s.take(n), x) + in_atoms(s.skip(n), x) == in_atoms(s, x),
    decreases s.len(),
{
    if n == s.len() {
        assert(s.take(n) =~= s);
        assert(s.skip(n).len() == 0);
    } else {
        let front = s.drop_last();
        lemma_split(front, n, x);
        assert(front.take(n) =~= s.take(n));
        assert(s.skip(n).drop_last() =~= front.skip(n));
        assert(s.skip(n).last() == s.last());
    }
}

proof fn lemma_split_line(out: Seq<LineT>, line: LineT, x: Seq<char>)
    ensures
        in_lines(split_line(out, line), x) == in_lines(out, x) + in_line(line, x),
    decreases line.atoms.len(),
{
    let n = attribute_len(line.atoms);
    if starts_with_attribute(line.atoms) && line.atoms.len() > n {
        let first = LineT {
            blank_before: super::attributes::keeps_blank(out, line.blank_before),
            atoms: line.atoms.take(n),
            trailing: Seq::empty(),
        };
        let rest = LineT {
            blank_before: false,
            atoms: line.atoms.skip(n),
            trailing: line.trailing,
        };
        lemma_lines_push(out, first, x);
        lemma_split(line.atoms, n, x);
        lemma_split_line(out.push(first), rest, x);
        assert(in_line(first, x) == in_atoms(first.atoms, x));
    } else {
        let kept = LineT {
            blank_before: super::attributes::keeps_blank(out, line.blank_before),
            ..line
        };
        lemma_lines_push(out, kept, x);
        assert(in_line(kept, x) == in_line(line, x));
    }
}

proof fn lemma_normalized(s: Seq<LineT>, x: Seq<char>)
    ensures
        in_lines(normalized(s), x) == in_lines(s, x),
    decreases s.len(),
{
    if s.len() > 0 {
        lemma_normalized(s.drop_last(), x);
        lemma_split_line(normalized(s.drop_last()), s.last(), x);
    }
}

/// Every comment among the items is in the lines that are printed, exactly as
/// often.
pub proof fn comments_are_kept(src: Seq<char>, items: Seq<ItemT>, x: Seq<char>)
    requires
        ends_last(src, items),
    ensures
        in_lines(normalized(built(src, items)), x) == in_items(items, x),
{
    lemma_grown(src, items, items.len() as int, x);
    assert(items.take(items.len() as int) =~= items);
    lemma_finished(grown(src, items).frames, x);
    lemma_normalized(built(src, items), x);
}

} // verus!
