//! The lines that are built of a source hold texts that begin and end with
//! something on their line.

use vstd::prelude::*;

use super::airy::{
    all_solid, sound_atom, sound_atoms, sound_block, sound_element, sound_elements, sound_group,
    sound_line, sound_lines, solid,
};
use super::attributes::{
    attribute_len, keeps_blank, normalized, split_line, starts_with_attribute,
};
use super::tree::{
    advance, built, close_group, close_lines, closed, end_element, end_line, ends_with_comma,
    finished, frame_atoms, group_remark, grow, grown, lines_newline, lines_remark, no_lines,
    plain_token, with_atom, AtomT, BlockT, ElementT, FrameT, GroupT, ItemT, LeafT, LineT, NextT,
    OpenGroupT, OpenLinesT, TreeT,
};

verus! {

/// Whether no line in an atom is empty. A line is empty where a comma stands
/// alone on it: the separator is not written.
pub open spec fn filled_atom(a: AtomT) -> bool
    decreases a,
{
    match a {
        AtomT::Leaf(_) => true,
        AtomT::Group(g) => filled_group(g),
        AtomT::Block(b) => filled_block(b),
    }
}

/// [`filled_atom`] of a group.
pub open spec fn filled_group(g: GroupT) -> bool
    decreases g,
{
    filled_elements(g.elements)
}

/// [`filled_atom`] of a block.
pub open spec fn filled_block(b: BlockT) -> bool
    decreases b,
{
    filled_lines(b.lines)
}

/// [`filled_atom`] of atoms.
pub open spec fn filled_atoms(s: Seq<AtomT>) -> bool
    decreases s,
{
    s.len() == 0 || (filled_atoms(s.drop_last()) && filled_atom(s.last()))
}

/// [`filled_atom`] of an element.
pub open spec fn filled_element(e: ElementT) -> bool
    decreases e,
{
    filled_atoms(e.atoms)
}

/// [`filled_atom`] of elements.
pub open spec fn filled_elements(s: Seq<ElementT>) -> bool
    decreases s,
{
    s.len() == 0 || (filled_elements(s.drop_last()) && filled_element(s.last()))
}

/// [`filled_atom`] of a line.
pub open spec fn filled_line(l: LineT) -> bool
    decreases l,
{
    filled_atoms(l.atoms) && (l.atoms.len() > 0 || l.trailing.len() > 0)
}

/// [`filled_atom`] of lines.
pub open spec fn filled_lines(s: Seq<LineT>) -> bool
    decreases s,
{
    s.len() == 0 || (filled_lines(s.drop_last()) && filled_line(s.last()))
}

proof fn lemma_filled_atoms(s: Seq<AtomT>)
    requires
        sound_atoms(s, false),
        filled_atoms(s),
    ensures
        sound_atoms(s, true),
    decreases s,
{
    if s.len() > 0 {
        lemma_filled_atoms(s.drop_last());
        lemma_filled_atom(s.last());
    }
}

proof fn lemma_filled_atom(a: AtomT)
    requires
        sound_atom(a, false),
        filled_atom(a),
    ensures
        sound_atom(a, true),
    decreases a,
{
    match a {
        AtomT::Leaf(_) => {},
        AtomT::Group(g) => {
            assert(sound_group(g, false) && filled_group(g));
            lemma_filled_elements(g.elements);
            assert(sound_group(g, true));
        },
        AtomT::Block(b) => {
            assert(sound_block(b, false) && filled_block(b));
            filled_lines_are_sound(b.lines);
            assert(sound_block(b, true));
        },
    }
}

proof fn lemma_filled_elements(s: Seq<ElementT>)
    requires
        sound_elements(s, false),
        filled_elements(s),
    ensures
        sound_elements(s, true),
    decreases s,
{
    if s.len() > 0 {
        lemma_filled_elements(s.drop_last());
        assert(sound_element(s.last(), false) && filled_element(s.last()));
        lemma_filled_atoms(s.last().atoms);
        assert(sound_element(s.last(), true));
    }
}

/// Lines that hold solid texts, none of which is empty.
pub proof fn filled_lines_are_sound(s: Seq<LineT>)
    requires
        sound_lines(s, false),
        filled_lines(s),
    ensures
        sound_lines(s, true),
    decreases s,
{
    if s.len() > 0 {
        filled_lines_are_sound(s.drop_last());
        assert(sound_line(s.last(), false) && filled_line(s.last()));
        lemma_filled_atoms(s.last().atoms);
        assert(sound_line(s.last(), true));
    }
}

spec fn sound_open_lines(l: OpenLinesT) -> bool {
    sound_lines(l.lines, false) && sound_atoms(l.atoms, false) && all_solid(l.trailing)
}

spec fn sound_open_group(g: OpenGroupT) -> bool {
    sound_elements(g.elements, false) && sound_atoms(g.atoms, false) && all_solid(g.trailing)
        && all_solid(g.pending)
}

spec fn sound_frame(f: FrameT) -> bool {
    match f {
        FrameT::Lines(l) => sound_open_lines(l),
        FrameT::Group(g) => sound_open_group(g),
    }
}

spec fn sound_frames(s: Seq<FrameT>) -> bool {
    forall|i: int| 0 <= i < s.len() ==> sound_frame(#[trigger] s[i])
}

/// Whether the text of an item is solid, unless the item ends a line or the
/// file.
pub open spec fn sound_item(i: ItemT) -> bool {
    match i {
        ItemT::Leaf(leaf, _) => leaf.kind is Newline || leaf.kind is Eof || solid(leaf.text),
        ItemT::Remark(text, _) => solid(text),
    }
}

/// Whether the texts of all items are solid.
pub open spec fn sound_items(s: Seq<ItemT>) -> bool {
    forall|i: int| 0 <= i < s.len() ==> sound_item(#[trigger] s[i])
}

proof fn lemma_atoms_push(s: Seq<AtomT>, a: AtomT)
    requires
        sound_atoms(s, false),
        sound_atom(a, false),
    ensures
        sound_atoms(s.push(a), false),
{
    assert(s.push(a).drop_last() =~= s);
}

proof fn lemma_elements_push(s: Seq<ElementT>, e: ElementT)
    requires
        sound_elements(s, false),
        sound_element(e, false),
    ensures
        sound_elements(s.push(e), false),
{
    assert(s.push(e).drop_last() =~= s);
}

proof fn lemma_lines_push(s: Seq<LineT>, l: LineT)
    requires
        sound_lines(s, false),
        sound_line(l, false),
    ensures
        sound_lines(s.push(l), false),
{
    assert(s.push(l).drop_last() =~= s);
}

proof fn lemma_end_line(l: OpenLinesT)
    requires
        sound_open_lines(l),
    ensures
        sound_open_lines(end_line(l)),
{
    if l.atoms.len() == 0 && l.trailing.len() == 0 {
    } else {
        let kept = if ends_with_comma(l.atoms) {
            l.atoms.drop_last()
        } else {
            l.atoms
        };
        assert(sound_atoms(kept, false));
        let line = LineT { blank_before: l.blank, atoms: kept, trailing: l.trailing };
        assert(sound_line(line, false));
        lemma_lines_push(l.lines, line);
    }
}

proof fn lemma_end_element(g: OpenGroupT)
    requires
        sound_open_group(g),
    ensures
        sound_open_group(end_element(g)),
{
    let e = ElementT { leading: g.pending, atoms: g.atoms, trailing: g.trailing };
    assert(sound_element(e, false));
    lemma_elements_push(g.elements, e);
}

proof fn lemma_closed(f: FrameT)
    requires
        sound_frame(f),
    ensures
        sound_atom(closed(f), false),
{
    match f {
        FrameT::Lines(l) => {
            lemma_end_line(l);
            assert(sound_block(close_lines(l), false));
        },
        FrameT::Group(g) => {
            lemma_end_element(g);
            assert(sound_group(close_group(g), false));
        },
    }
}

proof fn lemma_with_atom(f: FrameT, a: AtomT)
    requires
        sound_frame(f),
        sound_atom(a, false),
    ensures
        sound_frame(with_atom(f, a)),
{
    lemma_atoms_push(frame_atoms(f), a);
}

proof fn lemma_solid_push(s: Seq<Seq<char>>, t: Seq<char>)
    requires
        all_solid(s),
        solid(t),
    ensures
        all_solid(s.push(t)),
{
}

proof fn lemma_lines_remark(l: OpenLinesT, text: Seq<char>)
    requires
        sound_open_lines(l),
        solid(text),
    ensures
        sound_open_lines(lines_remark(l, text)),
{
    let line = LineT { blank_before: l.blank, atoms: Seq::empty(), trailing: seq![text] };
    lemma_solid_push(Seq::empty(), text);
    assert(seq![text] =~= Seq::<Seq<char>>::empty().push(text));
    assert(sound_line(line, false));
    lemma_lines_push(l.lines, line);
    lemma_solid_push(l.trailing, text);
}

proof fn lemma_group_remark(src: Seq<char>, g: OpenGroupT, text: Seq<char>, start: nat)
    requires
        sound_open_group(g),
        solid(text),
    ensures
        sound_open_group(group_remark(src, g, text, start)),
{
    lemma_solid_push(g.trailing, text);
    lemma_solid_push(g.pending, text);
    if g.elements.len() > 0 {
        let last = g.elements.last();
        assert(sound_element(last, false));
        lemma_solid_push(last.trailing, text);
        let more = ElementT { trailing: last.trailing.push(text), ..last };
        assert(sound_element(more, false));
        lemma_elements_push(g.elements.drop_last(), more);
    }
}

proof fn lemma_plain_token(f: FrameT, leaf: LeafT)
    requires
        sound_frame(f),
        leaf.kind is Newline || solid(leaf.text),
    ensures
        sound_frame(plain_token(f, leaf)),
{
    if !(leaf.kind is Newline) {
        lemma_with_atom(f, AtomT::Leaf(leaf));
    }
    match f {
        FrameT::Lines(l) => {
            lemma_end_line(l);
            assert(sound_open_lines(lines_newline(l)));
        },
        FrameT::Group(g) => lemma_end_element(g),
    }
}

proof fn lemma_grow(src: Seq<char>, t: TreeT, item: ItemT)
    requires
        t.frames.len() > 0,
        sound_frames(t.frames),
        sound_item(item),
    ensures
        grow(src, t, item).frames.len() > 0,
        sound_frames(grow(src, t, item).frames),
{
    let rest = t.frames.drop_last();
    let top = t.frames.last();
    assert(sound_frame(t.frames[t.frames.len() - 1]));
    assert(sound_frames(rest)) by {
        assert forall|i: int| 0 <= i < rest.len() implies sound_frame(#[trigger] rest[i]) by {
            assert(rest[i] == t.frames[i]);
        }
    }
    if !t.done {
        match item {
            ItemT::Remark(text, start) => {
                match top {
                    FrameT::Lines(l) => lemma_lines_remark(l, text),
                    FrameT::Group(g) => lemma_group_remark(src, g, text, start),
                }
            },
            ItemT::Leaf(leaf, end) => {
                let noted = match top {
                    FrameT::Lines(l) => FrameT::Lines(l),
                    FrameT::Group(g) => FrameT::Group(OpenGroupT { code_end: end, ..g }),
                };
                assert(sound_frame(noted));
                match advance(top, t.frames.len() == 1, leaf, end) {
                    NextT::Stay(_) => lemma_plain_token(noted, leaf),
                    NextT::Open(_, inner) => assert(sound_frame(inner)),
                    NextT::Close(a) => {
                        assert(rest.len() > 0);
                        assert(sound_frame(rest[rest.len() - 1]));
                        lemma_closed(top);
                        lemma_with_atom(rest.last(), a);
                    },
                    NextT::Stop(_) => {},
                }
            },
        }
    }
}

proof fn lemma_grown(src: Seq<char>, items: Seq<ItemT>)
    requires
        sound_items(items),
    ensures
        grown(src, items).frames.len() > 0,
        sound_frames(grown(src, items).frames),
    decreases items.len(),
{
    if items.len() == 0 {
        assert(sound_frame(FrameT::Lines(no_lines())));
    } else {
        assert(sound_items(items.drop_last())) by {
            assert forall|i: int| 0 <= i < items.len() - 1 implies sound_item(
                #[trigger] items.drop_last()[i],
            ) by {
                assert(items.drop_last()[i] == items[i]);
            }
        }
        assert(sound_item(items[items.len() - 1]));
        lemma_grown(src, items.drop_last());
        lemma_grow(src, grown(src, items.drop_last()), items.last());
    }
}

proof fn lemma_finished(s: Seq<FrameT>)
    requires
        s.len() > 0,
        sound_frames(s),
    ensures
        sound_lines(finished(s), false),
    decreases s.len(),
{
    assert(sound_frame(s[0]));
    if s.len() == 1 {
        if let FrameT::Lines(l) = s[0] {
            lemma_end_line(l);
        }
    } else {
        let rest = s.drop_last();
        assert(sound_frame(s[s.len() - 1]));
        assert(sound_frame(s[s.len() - 2]));
        lemma_closed(s.last());
        lemma_with_atom(rest.last(), closed(s.last()));
        let next = rest.drop_last().push(with_atom(rest.last(), closed(s.last())));
        assert forall|i: int| 0 <= i < next.len() implies sound_frame(#[trigger] next[i]) by {
            if i < next.len() - 1 {
                assert(next[i] == s[i]);
            }
        }
        lemma_finished(next);
    }
}

proof fn lemma_split(s: Seq<AtomT>, n: int)
    requires
        0 <= n <= s.len(),
        sound_atoms(s, false),
    ensures
        sound_atoms(s.take(n), false),
        sound_atoms(s.skip(n), false),
    decreases s.len(),
{
    if n == s.len() {
        assert(s.take(n) =~= s);
        assert(s.skip(n).len() == 0);
    } else {
        let front = s.drop_last();
        lemma_split(front, n);
        assert(front.take(n) =~= s.take(n));
        assert(s.skip(n).drop_last() =~= front.skip(n));
        assert(s.skip(n).last() == s.last());
    }
}

proof fn lemma_split_line(out: Seq<LineT>, line: LineT)
    requires
        sound_lines(out, false),
        sound_line(line, false),
    ensures
        sound_lines(split_line(out, line), false),
    decreases line.atoms.len(),
{
    let n = attribute_len(line.atoms);
    if starts_with_attribute(line.atoms) && line.atoms.len() > n {
        let first = LineT {
            blank_before: keeps_blank(out, line.blank_before),
            atoms: line.atoms.take(n),
            trailing: Seq::empty(),
        };
        let rest = LineT {
            blank_before: false,
            atoms: line.atoms.skip(n),
            trailing: line.trailing,
        };
        lemma_split(line.atoms, n);
        assert(sound_line(first, false) && sound_line(rest, false));
        lemma_lines_push(out, first);
        lemma_split_line(out.push(first), rest);
    } else {
        let kept = LineT { blank_before: keeps_blank(out, line.blank_before), ..line };
        assert(sound_line(kept, false));
        lemma_lines_push(out, kept);
    }
}

proof fn lemma_normalized(s: Seq<LineT>)
    requires
        sound_lines(s, false),
    ensures
        sound_lines(normalized(s), false),
    decreases s.len(),
{
    if s.len() > 0 {
        lemma_normalized(s.drop_last());
        lemma_split_line(normalized(s.drop_last()), s.last());
    }
}

/// The lines that are built of items with solid texts hold solid texts.
pub proof fn built_lines_are_sound(src: Seq<char>, items: Seq<ItemT>)
    requires
        sound_items(items),
    ensures
        sound_lines(normalized(built(src, items)), false),
{
    lemma_grown(src, items);
    lemma_finished(grown(src, items).frames);
    lemma_normalized(built(src, items));
}

} // verus!
