//! The formatter never leaves two blank lines in a row, and never begins with
//! one.

use vstd::prelude::*;

use super::lines::{
    cleaned, cleaned_lines_end_tidily, cleaned_text_ends_once, lines_from, next_break,
    text_lines, trimmed_lines, without_breaks, without_return,
};
use super::print::{
    atom_text, block_broken, block_lines, break_order, broken_text, close_char, deeper,
    element_text, elements_text, fitted, flat_atom, flat_atoms, flat_block, flat_elements,
    flat_group, group_broken, line_text, open_char, own_remarks, program_lines, program_text,
    remarks_above, remarks_after, rendered, spaced,
};
use super::tree::{AtomT, BlockT, ElementT, GroupT, LineT};
use crate::error::{is_white, trimmed_end};
use crate::strings::joined;

verus! {

/// Where a text stands: whether anything but white space has been seen, and how
/// many newlines since.
#[verifier::ext_equal]
pub struct Gap {
    pub started: bool,
    pub breaks: nat,
}

/// Where a text stands after one more character.
pub open spec fn step(g: Gap, c: char) -> Gap {
    if c == '\n' {
        Gap { started: g.started, breaks: g.breaks + 1 }
    } else if is_white(c) {
        g
    } else {
        Gap { started: true, breaks: 0 }
    }
}

/// Whether there is at most one blank line here, and none at the beginning.
pub open spec fn is_airy(g: Gap) -> bool {
    g.breaks <= 2 && (g.breaks > 0 ==> g.started)
}

/// Where a text stands after `s`.
pub open spec fn after(g: Gap, s: Seq<char>) -> Gap
    decreases s.len(),
{
    if s.len() == 0 {
        g
    } else {
        step(after(g, s.drop_last()), s.last())
    }
}

/// Whether there is nowhere more than one blank line on the way through `s`, and
/// none at the beginning.
pub open spec fn steady(g: Gap, s: Seq<char>) -> bool
    decreases s.len(),
{
    is_airy(after(g, s)) && (s.len() == 0 || steady(g, s.drop_last()))
}

/// Right after something that is no white space.
pub open spec fn on() -> Gap {
    Gap { started: true, breaks: 0 }
}

/// Whether a text begins and ends with something on its line, wherever it stands.
pub open spec fn solid(t: Seq<char>) -> bool {
    forall|g: Gap| is_airy(g) ==> #[trigger] steady(g, t) && after(g, t) == on()
}

/// Whether a text that goes on in a line ends with something on its line.
pub open spec fn mild(t: Seq<char>) -> bool {
    steady(on(), t) && after(on(), t) == on()
}

/// Whether a text is an indentation.
pub open spec fn is_pad(t: Seq<char>) -> bool {
    forall|i: int| 0 <= i < t.len() ==> #[trigger] t[i] == ' '
}

proof fn lemma_cat(g: Gap, a: Seq<char>, b: Seq<char>)
    ensures
        after(g, a + b) == after(after(g, a), b),
        steady(g, a + b) == (steady(g, a) && steady(after(g, a), b)),
    decreases b.len(),
{
    if b.len() == 0 {
        assert(a + b =~= a);
        if a.len() > 0 {
            assert(steady(g, a) ==> is_airy(after(g, a)));
        }
    } else {
        assert((a + b).drop_last() =~= a + b.drop_last());
        lemma_cat(g, a, b.drop_last());
    }
}

proof fn lemma_pad(g: Gap, p: Seq<char>)
    requires
        is_pad(p),
    ensures
        after(g, p) == g,
        is_airy(g) ==> steady(g, p),
    decreases p.len(),
{
    if p.len() > 0 {
        assert(p[p.len() - 1] == ' ');
        lemma_pad(g, p.drop_last());
    }
}

proof fn lemma_solid_is_mild(t: Seq<char>)
    requires
        solid(t),
    ensures
        mild(t),
{
    assert(is_airy(on()));
    assert(steady(on(), t));
}

proof fn lemma_mild_cat(a: Seq<char>, b: Seq<char>)
    requires
        mild(a),
        mild(b),
    ensures
        mild(a + b),
{
    lemma_cat(on(), a, b);
}

proof fn lemma_solid_cat(a: Seq<char>, b: Seq<char>)
    requires
        solid(a),
        mild(b),
    ensures
        solid(a + b),
{
    assert forall|g: Gap| is_airy(g) implies #[trigger] steady(g, a + b) && after(g, a + b)
        == on() by {
        lemma_cat(g, a, b);
        assert(steady(g, a));
    }
}

proof fn lemma_pad_solid(p: Seq<char>, t: Seq<char>)
    requires
        is_pad(p),
        solid(t),
    ensures
        solid(p + t),
{
    assert forall|g: Gap| is_airy(g) implies #[trigger] steady(g, p + t) && after(g, p + t)
        == on() by {
        lemma_cat(g, p, t);
        lemma_pad(g, p);
        assert(steady(g, t));
    }
}

proof fn lemma_mild_pad(p: Seq<char>)
    requires
        is_pad(p),
    ensures
        mild(p),
{
    lemma_pad(on(), p);
}

/// A text that begins with no white space and has no newline.
proof fn lemma_inline(t: Seq<char>)
    requires
        t.len() > 0,
        !is_white(t[0]),
        forall|i: int| 0 <= i < t.len() ==> #[trigger] t[i] != '\n',
    ensures
        solid(t),
    decreases t.len(),
{
    assert forall|g: Gap| is_airy(g) implies #[trigger] steady(g, t) && after(g, t) == on() by {
        lemma_inline_at(g, t);
    }
}

proof fn lemma_inline_at(g: Gap, t: Seq<char>)
    requires
        is_airy(g),
        t.len() > 0,
        !is_white(t[0]),
        forall|i: int| 0 <= i < t.len() ==> #[trigger] t[i] != '\n',
    ensures
        steady(g, t),
        after(g, t) == on(),
    decreases t.len(),
{
    let front = t.drop_last();
    assert(t[t.len() - 1] != '\n');
    if t.len() > 1 {
        assert forall|i: int| 0 <= i < front.len() implies #[trigger] front[i] != '\n' by {
            assert(front[i] == t[i]);
        }
        lemma_inline_at(g, front);
    } else {
        assert(front.len() == 0);
        assert(after(g, front) == g);
        assert(steady(g, front));
    }
}

/// A short text that neither begins nor ends with white space.
proof fn lemma_short(t: Seq<char>)
    requires
        3 <= t.len() <= 4,
        !is_white(t[0]),
        !is_white(t[t.len() - 1]),
    ensures
        solid(t),
{
    assert forall|g: Gap| is_airy(g) implies #[trigger] steady(g, t) && after(g, t) == on() by {
        let t0 = t.take(0);
        let t1 = t.take(1);
        let t2 = t.take(2);
        let t3 = t.take(3);
        assert(t1.drop_last() =~= t0);
        assert(t2.drop_last() =~= t1);
        assert(t3.drop_last() =~= t2);
        assert(after(g, t0) == g && steady(g, t0));
        assert(after(g, t1) == on() && steady(g, t1));
        assert(after(g, t2) == step(on(), t[1]) && steady(g, t2));
        if t.len() == 3 {
            assert(t3 =~= t);
        } else {
            assert(after(g, t3) == step(after(g, t2), t[2]) && steady(g, t3));
            assert(t.drop_last() =~= t3);
        }
    }
}

/// The texts of tokens and comments: solid, since they begin with no white space
/// and hold no newline, or are a character in quotes.
pub proof fn written_texts_are_solid(t: Seq<char>)
    requires
        t.len() > 0,
        !is_white(t[0]),
        (forall|i: int| 0 <= i < t.len() ==> #[trigger] t[i] != '\n') || (3 <= t.len() <= 4
            && !is_white(t[t.len() - 1])),
    ensures
        solid(t),
{
    if forall|i: int| 0 <= i < t.len() ==> #[trigger] t[i] != '\n' {
        lemma_inline(t);
    } else {
        lemma_short(t);
    }
}

/// A new line, after a blank one or not.
proof fn lemma_break(p: Seq<char>, t: Seq<char>)
    requires
        is_pad(p),
        solid(t),
    ensures
        mild(seq!['\n'] + p + t),
        mild(seq!['\n', '\n'] + p + t),
{
    let one = seq!['\n'];
    let two = seq!['\n', '\n'];
    let g1 = Gap { started: true, breaks: 1 };
    let g2 = Gap { started: true, breaks: 2 };
    assert(one.drop_last() =~= Seq::<char>::empty());
    assert(two.drop_last() =~= one);
    assert(after(on(), Seq::<char>::empty()) == on());
    assert(steady(on(), Seq::<char>::empty()));
    assert(after(on(), one) == g1 && steady(on(), one));
    assert(after(on(), two) == g2 && steady(on(), two));
    lemma_cat(on(), one, p);
    lemma_cat(on(), two, p);
    lemma_pad(g1, p);
    lemma_pad(g2, p);
    lemma_cat(on(), one + p, t);
    lemma_cat(on(), two + p, t);
    assert(steady(g1, t) && steady(g2, t));
}

/// Whether all comments are solid.
pub open spec fn all_solid(s: Seq<Seq<char>>) -> bool {
    forall|i: int| 0 <= i < s.len() ==> solid(#[trigger] s[i])
}

/// Whether the texts in an atom are solid, and with `filled` no line is empty.
pub open spec fn sound_atom(a: AtomT, filled: bool) -> bool
    decreases a,
{
    match a {
        AtomT::Leaf(leaf) => solid(leaf.text),
        AtomT::Group(g) => sound_group(g, filled),
        AtomT::Block(b) => sound_block(b, filled),
    }
}

/// [`sound_atom`] of a group.
pub open spec fn sound_group(g: GroupT, filled: bool) -> bool
    decreases g,
{
    sound_elements(g.elements, filled) && all_solid(g.dangling)
}

/// [`sound_atom`] of a block.
pub open spec fn sound_block(b: BlockT, filled: bool) -> bool
    decreases b,
{
    sound_lines(b.lines, filled)
}

/// [`sound_atom`] of atoms.
pub open spec fn sound_atoms(s: Seq<AtomT>, filled: bool) -> bool
    decreases s,
{
    s.len() == 0 || (sound_atoms(s.drop_last(), filled) && sound_atom(s.last(), filled))
}

/// [`sound_atom`] of an element.
pub open spec fn sound_element(e: ElementT, filled: bool) -> bool
    decreases e,
{
    all_solid(e.leading) && sound_atoms(e.atoms, filled) && all_solid(e.trailing)
}

/// [`sound_atom`] of elements.
pub open spec fn sound_elements(s: Seq<ElementT>, filled: bool) -> bool
    decreases s,
{
    s.len() == 0 || (sound_elements(s.drop_last(), filled) && sound_element(s.last(), filled))
}

/// [`sound_atom`] of a line.
pub open spec fn sound_line(l: LineT, filled: bool) -> bool
    decreases l,
{
    sound_atoms(l.atoms, filled) && all_solid(l.trailing) && (filled ==> l.atoms.len() > 0
        || l.trailing.len() > 0)
}

/// [`sound_atom`] of lines.
pub open spec fn sound_lines(s: Seq<LineT>, filled: bool) -> bool
    decreases s,
{
    s.len() == 0 || (sound_lines(s.drop_last(), filled) && sound_line(s.last(), filled))
}

proof fn lemma_flat_atoms(s: Seq<AtomT>)
    requires
        sound_atoms(s, true),
    ensures
        flat_atoms(s) matches Some(t) ==> (if s.len() == 0 {
            t.len() == 0
        } else {
            solid(t)
        }),
    decreases s,
{
    if s.len() > 0 {
        let front = s.drop_last();
        lemma_flat_atoms(front);
        lemma_flat_atom(s.last());
        if let (Some(before), Some(text)) = (flat_atoms(front), flat_atom(s.last())) {
            if front.len() == 0 {
                assert(spaced(before, s) + text =~= text);
            } else {
                lemma_spaced(before, s);
                lemma_solid_is_mild(text);
                lemma_solid_cat(spaced(before, s), text);
            }
        }
    }
}

proof fn lemma_spaced(before: Seq<char>, s: Seq<AtomT>)
    requires
        solid(before),
    ensures
        solid(spaced(before, s)),
{
    let gap = seq![' '];
    lemma_mild_pad(gap);
    lemma_solid_cat(before, gap);
    assert(before.push(' ') =~= before + gap);
}

proof fn lemma_flat_atom(a: AtomT)
    requires
        sound_atom(a, true),
    ensures
        flat_atom(a) matches Some(t) ==> solid(t),
    decreases a,
{
    match a {
        AtomT::Leaf(_) => {},
        AtomT::Group(g) => lemma_flat_group(g),
        AtomT::Block(b) => lemma_flat_block(b),
    }
}

proof fn lemma_flat_elements(s: Seq<ElementT>)
    requires
        sound_elements(s, true),
    ensures
        flat_elements(s) matches Some(t) ==> mild(t),
    decreases s,
{
    reveal_strlit(", ");
    if s.len() == 0 {
        lemma_mild_pad(Seq::empty());
    } else {
        lemma_flat_elements(s.drop_last());
        assert(sound_element(s.last(), true));
        lemma_flat_atoms(s.last().atoms);
        if let (Some(before), Some(text)) = (
            flat_elements(s.drop_last()),
            flat_atoms(s.last().atoms),
        ) {
            if s.last().atoms.len() == 0 {
                lemma_mild_pad(text);
            } else {
                lemma_solid_is_mild(text);
            }
            lemma_mild_cat(before, text);
            lemma_inline(", "@);
            lemma_solid_is_mild(", "@);
            lemma_mild_cat(before, ", "@);
            lemma_mild_cat(before + ", "@, text);
        }
    }
}

proof fn lemma_flat_group(g: GroupT)
    requires
        sound_group(g, true),
    ensures
        flat_group(g) matches Some(t) ==> solid(t),
    decreases g,
{
    lemma_flat_elements(g.elements);
    if let Some(inner) = flat_elements(g.elements) {
        lemma_brackets(inner);
    }
}

proof fn lemma_brackets(inner: Seq<char>)
    requires
        mild(inner),
    ensures
        solid("("@ + inner + ")"@),
        solid("["@ + inner + "]"@),
        solid("{ "@ + inner + " }"@),
        solid("{}"@),
{
    reveal_strlit("(");
    reveal_strlit(")");
    reveal_strlit("[");
    reveal_strlit("]");
    reveal_strlit("{ ");
    reveal_strlit(" }");
    reveal_strlit("{}");
    lemma_inline("("@);
    lemma_inline(")"@);
    lemma_inline("["@);
    lemma_inline("]"@);
    lemma_inline("{ "@);
    lemma_inline("{}"@);
    let close = seq!['}'];
    lemma_inline(close);
    lemma_pad_solid(seq![' '], close);
    assert(seq![' '] + close =~= " }"@);
    lemma_solid_is_mild(")"@);
    lemma_solid_is_mild("]"@);
    lemma_solid_is_mild(" }"@);
    lemma_solid_cat("("@, inner);
    lemma_solid_cat("["@, inner);
    lemma_solid_cat("{ "@, inner);
    lemma_solid_cat("("@ + inner, ")"@);
    lemma_solid_cat("["@ + inner, "]"@);
    lemma_solid_cat("{ "@ + inner, " }"@);
}

proof fn lemma_flat_block(b: BlockT)
    requires
        sound_block(b, true),
    ensures
        flat_block(b) matches Some(t) ==> solid(t),
    decreases b,
{
    lemma_mild_pad(Seq::empty());
    lemma_brackets(Seq::empty());
    if b.lines.len() == 1 {
        assert(sound_line(b.lines[0], true)) by {
            assert(b.lines.last() == b.lines[0]);
        }
        lemma_flat_atoms(b.lines[0].atoms);
        if b.lines[0].atoms.len() > 0 {
            if let Some(inner) = flat_atoms(b.lines[0].atoms) {
                lemma_solid_is_mild(inner);
                lemma_brackets(inner);
            }
        }
    }
}

proof fn lemma_deeper(pad: Seq<char>)
    requires
        is_pad(pad),
    ensures
        is_pad(deeper(pad)),
{
    reveal_strlit("    ");
}

proof fn lemma_fitted(s: Seq<AtomT>, pad: Seq<char>, cut: nat)
    requires
        sound_atoms(s, true),
        is_pad(pad),
    ensures
        if s.len() == 0 {
            is_pad(fitted(s, pad, cut))
        } else {
            solid(fitted(s, pad, cut))
        },
    decreases s, 2nat, break_order(s).len() - cut,
{
    let order = break_order(s);
    if cut >= order.len() {
        lemma_rendered(s, pad, order);
    } else {
        lemma_rendered(s, pad, order.take(cut as int));
        lemma_fitted(s, pad, cut + 1);
    }
}

proof fn lemma_rendered(s: Seq<AtomT>, pad: Seq<char>, broken: Seq<int>)
    requires
        sound_atoms(s, true),
        is_pad(pad),
    ensures
        if s.len() == 0 {
            rendered(s, pad, broken) == pad
        } else {
            solid(rendered(s, pad, broken))
        },
    decreases s, 1nat, 0int,
{
    if s.len() > 0 {
        let front = s.drop_last();
        lemma_rendered(front, pad, broken);
        let before = rendered(front, pad, broken);
        lemma_atom_text(s.last(), pad, broken.contains(s.len() - 1));
        let text = atom_text(s.last(), pad, broken.contains(s.len() - 1));
        if front.len() == 0 {
            lemma_pad_solid(pad, text);
        } else {
            lemma_spaced(before, s);
            lemma_solid_is_mild(text);
            lemma_solid_cat(spaced(before, s), text);
        }
    }
}

proof fn lemma_atom_text(a: AtomT, pad: Seq<char>, broken: bool)
    requires
        sound_atom(a, true),
        is_pad(pad),
    ensures
        solid(atom_text(a, pad, broken)),
    decreases a, 0nat, 1int,
{
    lemma_flat_atom(a);
    lemma_broken_text(a, pad);
}

proof fn lemma_broken_text(a: AtomT, pad: Seq<char>)
    requires
        sound_atom(a, true),
        is_pad(pad),
    ensures
        solid(broken_text(a, pad)),
    decreases a, 0nat, 0int,
{
    match a {
        AtomT::Leaf(_) => {},
        AtomT::Group(g) => lemma_group_broken(g, pad),
        AtomT::Block(b) => lemma_block_broken(b, pad),
    }
}

/// `out` with one more line, after a blank one or not.
proof fn lemma_more(out: Seq<char>, pad: Seq<char>, text: Seq<char>)
    requires
        solid(out),
        is_pad(pad),
        solid(text),
    ensures
        solid(out.push('\n') + pad + text),
        solid(out.push('\n').push('\n') + pad + text),
{
    lemma_break(pad, text);
    lemma_solid_cat(out, seq!['\n'] + pad + text);
    lemma_solid_cat(out, seq!['\n', '\n'] + pad + text);
    assert(out + (seq!['\n'] + pad + text) =~= out.push('\n') + pad + text);
    assert(out + (seq!['\n', '\n'] + pad + text) =~= out.push('\n').push('\n') + pad + text);
}

proof fn lemma_remarks_above(out: Seq<char>, s: Seq<Seq<char>>, pad: Seq<char>)
    requires
        solid(out),
        all_solid(s),
        is_pad(pad),
    ensures
        solid(remarks_above(out, s, pad)),
    decreases s.len(),
{
    if s.len() > 0 {
        assert(all_solid(s.drop_last())) by {
            assert forall|i: int| 0 <= i < s.drop_last().len() implies solid(
                #[trigger] s.drop_last()[i],
            ) by {
                assert(s.drop_last()[i] == s[i]);
            }
        }
        assert(solid(s[s.len() - 1]));
        lemma_remarks_above(out, s.drop_last(), pad);
        lemma_more(remarks_above(out, s.drop_last(), pad), pad, s.last());
    }
}

proof fn lemma_remarks_after(out: Seq<char>, s: Seq<Seq<char>>)
    requires
        solid(out),
        all_solid(s),
    ensures
        solid(remarks_after(out, s)),
    decreases s.len(),
{
    if s.len() > 0 {
        assert(all_solid(s.drop_last())) by {
            assert forall|i: int| 0 <= i < s.drop_last().len() implies solid(
                #[trigger] s.drop_last()[i],
            ) by {
                assert(s.drop_last()[i] == s[i]);
            }
        }
        assert(solid(s[s.len() - 1]));
        lemma_remarks_after(out, s.drop_last());
        let before = remarks_after(out, s.drop_last());
        lemma_apart(before, s.last());
    }
}

proof fn lemma_apart(before: Seq<char>, text: Seq<char>)
    requires
        solid(before),
        solid(text),
    ensures
        solid(before.push(' ') + text),
{
    lemma_pad_solid(seq![' '], text);
    lemma_solid_is_mild(seq![' '] + text);
    lemma_solid_cat(before, seq![' '] + text);
    assert(before + (seq![' '] + text) =~= before.push(' ') + text);
}

proof fn lemma_element(out: Seq<char>, e: ElementT, pad: Seq<char>)
    requires
        solid(out),
        sound_element(e, true),
        is_pad(pad),
    ensures
        solid(element_text(out, e, pad)),
    decreases e, 0nat, 0int,
{
    lemma_remarks_above(out, e.leading, pad);
    let above = remarks_above(out, e.leading, pad);
    lemma_fitted(e.atoms, pad, 0);
    let f = fitted(e.atoms, pad, 0);
    let comma = seq![','];
    lemma_inline(comma);
    if e.atoms.len() == 0 {
        lemma_more(above, f, comma);
        assert(above.push('\n') + f + comma =~= (above.push('\n') + f).push(','));
    } else {
        lemma_solid_is_mild(comma);
        lemma_solid_cat(f, comma);
        let none: Seq<char> = Seq::empty();
        lemma_more(above, none, f + comma);
        assert(above.push('\n') + none + (f + comma) =~= (above.push('\n') + f).push(','));
    }
    lemma_remarks_after((above.push('\n') + f).push(','), e.trailing);
}

proof fn lemma_elements(out: Seq<char>, s: Seq<ElementT>, pad: Seq<char>)
    requires
        solid(out),
        sound_elements(s, true),
        is_pad(pad),
    ensures
        solid(elements_text(out, s, pad)),
    decreases s, 0nat, 0int,
{
    if s.len() > 0 {
        lemma_elements(out, s.drop_last(), pad);
        lemma_element(elements_text(out, s.drop_last(), pad), s.last(), pad);
    }
}

proof fn lemma_group_broken(g: GroupT, pad: Seq<char>)
    requires
        sound_group(g, true),
        is_pad(pad),
    ensures
        solid(group_broken(g, pad)),
    decreases g, 0nat, 0int,
{
    let inner = deeper(pad);
    lemma_deeper(pad);
    let open = Seq::empty().push(open_char(g.kind));
    lemma_inline(open);
    lemma_elements(open, g.elements, inner);
    let out = elements_text(open, g.elements, inner);
    lemma_remarks_above(out, g.dangling, inner);
    let above = remarks_above(out, g.dangling, inner);
    let close = seq![close_char(g.kind)];
    lemma_inline(close);
    lemma_more(above, pad, close);
    assert(above.push('\n') + pad + close =~= (above.push('\n') + pad).push(close_char(g.kind)));
}

proof fn lemma_block_broken(b: BlockT, pad: Seq<char>)
    requires
        sound_block(b, true),
        is_pad(pad),
    ensures
        solid(block_broken(b, pad)),
    decreases b, 0nat, 0int,
{
    reveal_strlit("{");
    reveal_strlit("{}");
    lemma_inline("{"@);
    lemma_inline("{}"@);
    lemma_deeper(pad);
    lemma_block_lines("{"@, b.lines, deeper(pad));
    let out = block_lines("{"@, b.lines, deeper(pad));
    let close = seq!['}'];
    lemma_inline(close);
    lemma_more(out, pad, close);
    assert(out.push('\n') + pad + close =~= (out.push('\n') + pad).push('}'));
}

proof fn lemma_block_lines(out: Seq<char>, s: Seq<LineT>, pad: Seq<char>)
    requires
        solid(out),
        sound_lines(s, true),
        is_pad(pad),
    ensures
        solid(block_lines(out, s, pad)),
    decreases s, 0nat, 0int,
{
    if s.len() > 0 {
        lemma_block_lines(out, s.drop_last(), pad);
        lemma_line(s.last(), pad);
        let before = block_lines(out, s.drop_last(), pad);
        let none: Seq<char> = Seq::empty();
        let text = line_text(s.last(), pad);
        lemma_more(before, none, text);
        assert(before.push('\n') + none + text =~= before.push('\n') + text);
        assert(before.push('\n').push('\n') + none + text =~= before.push('\n').push('\n')
            + text);
    }
}

proof fn lemma_own_remarks(s: Seq<Seq<char>>, pad: Seq<char>)
    requires
        all_solid(s),
        is_pad(pad),
    ensures
        if s.len() == 0 {
            own_remarks(s, pad) == pad
        } else {
            solid(own_remarks(s, pad))
        },
    decreases s.len(),
{
    if s.len() > 0 {
        assert(all_solid(s.drop_last())) by {
            assert forall|i: int| 0 <= i < s.drop_last().len() implies solid(
                #[trigger] s.drop_last()[i],
            ) by {
                assert(s.drop_last()[i] == s[i]);
            }
        }
        assert(solid(s[s.len() - 1]));
        lemma_own_remarks(s.drop_last(), pad);
        let before = own_remarks(s.drop_last(), pad);
        if s.len() == 1 {
            lemma_pad_solid(pad, s.last());
        } else {
            lemma_apart(before, s.last());
        }
    }
}

proof fn lemma_line(l: LineT, pad: Seq<char>)
    requires
        sound_line(l, true),
        is_pad(pad),
    ensures
        solid(line_text(l, pad)),
    decreases l, 0nat, 0int,
{
    if l.atoms.len() == 0 {
        lemma_own_remarks(l.trailing, pad);
    } else {
        lemma_fitted(l.atoms, pad, 0);
        lemma_remarks_after(fitted(l.atoms, pad, 0), l.trailing);
    }
}

proof fn lemma_program(s: Seq<LineT>)
    requires
        sound_lines(s, true),
    ensures
        s.len() == 0 ==> program_lines(s).len() == 0,
        s.len() > 0 ==> solid(program_lines(s)),
    decreases s.len(),
{
    if s.len() > 0 {
        let none: Seq<char> = Seq::empty();
        lemma_program(s.drop_last());
        lemma_line(s.last(), none);
        let before = program_lines(s.drop_last());
        let text = line_text(s.last(), none);
        if s.len() == 1 {
            assert(before + text =~= text);
        } else {
            lemma_more(before, none, text);
            assert(before.push('\n') + none + text =~= before.push('\n') + text);
            assert(before.push('\n').push('\n') + none + text =~= before.push('\n').push('\n')
                + text);
        }
    }
}

/// Where a text begins.
pub open spec fn start() -> Gap {
    Gap { started: false, breaks: 0 }
}

proof fn lemma_prefix(g: Gap, s: Seq<char>, n: int)
    requires
        0 <= n <= s.len(),
        steady(g, s),
    ensures
        steady(g, s.take(n)),
        is_airy(after(g, s.take(n))),
{
    assert(s.take(n) + s.skip(n) =~= s);
    lemma_cat(g, s.take(n), s.skip(n));
}

proof fn lemma_trim(g: Gap, line: Seq<char>)
    requires
        !line.contains('\n'),
    ensures
        after(g, trimmed_end(line)) == after(g, line),
        steady(g, line) ==> steady(g, trimmed_end(line)),
    decreases line.len(),
{
    if line.len() > 0 && is_white(line.last()) {
        assert(line[line.len() - 1] != '\n');
        assert(!line.drop_last().contains('\n')) by {
            if line.drop_last().contains('\n') {
                let k = choose|k: int| 0 <= k < line.len() - 1 && line.drop_last()[k] == '\n';
                assert(line[k] == '\n');
            }
        }
        lemma_trim(g, line.drop_last());
    }
}

proof fn lemma_first_break(s: Seq<char>, i: int)
    requires
        0 <= i <= s.len(),
    ensures
        i <= next_break(s, i) <= s.len(),
        next_break(s, i) < s.len() ==> s[next_break(s, i)] == '\n',
        !s.subrange(i, next_break(s, i)).contains('\n'),
    decreases s.len() - i,
{
    if i < s.len() && s[i] != '\n' {
        lemma_first_break(s, i + 1);
        let line = s.subrange(i, next_break(s, i));
        let rest = s.subrange(i + 1, next_break(s, i));
        if line.contains('\n') {
            let k = choose|k: int| 0 <= k < line.len() && line[k] == '\n';
            assert(line[k] == s[i + k]);
            assert(rest[k - 1] == '\n');
        }
    }
}

proof fn lemma_lines(out: Seq<Seq<char>>, s: Seq<char>, i: int)
    requires
        0 <= i <= s.len(),
        steady(start(), s),
        steady(start(), joined(trimmed_lines(out), "\n"@)),
        if out.len() == 0 {
            i == 0
        } else {
            step(after(start(), joined(trimmed_lines(out), "\n"@)), '\n') == after(
                start(),
                s.take(i),
            )
        },
    ensures
        steady(start(), joined(trimmed_lines(lines_from(out, s, i)), "\n"@)),
    decreases s.len() - i,
{
    reveal_strlit("\n");
    if i < s.len() {
        lemma_first_break(s, i);
        let end = next_break(s, i);
        let line = s.subrange(i, end);
        let shown = if end >= s.len() {
            line
        } else {
            without_return(line)
        };
        let t = trimmed_end(shown);
        assert(t == trimmed_end(line));
        let g = after(start(), s.take(i));
        lemma_prefix(start(), s, i);
        lemma_prefix(start(), s, end);
        assert(s.take(i) + line =~= s.take(end));
        lemma_cat(start(), s.take(i), line);
        lemma_trim(g, line);
        let before = joined(trimmed_lines(out), "\n"@);
        let more = out.push(shown);
        let all = joined(trimmed_lines(more), "\n"@);
        assert(trimmed_lines(more) =~= trimmed_lines(out).push(t));
        assert(trimmed_lines(more).drop_last() =~= trimmed_lines(out));
        if out.len() == 0 {
            assert(all == t);
            assert(s.take(0) =~= Seq::<char>::empty());
        } else {
            assert(all == before + "\n"@ + t);
            assert(before + "\n"@ =~= before.push('\n'));
            assert(before.push('\n').drop_last() =~= before);
            lemma_cat(start(), before.push('\n'), t);
        }
        assert(steady(start(), all) && after(start(), all) == after(start(), s.take(end)));
        if end < s.len() {
            assert(s.take(end + 1).drop_last() =~= s.take(end));
            lemma_lines(more, s, end + 1);
        } else {
            assert(s.subrange(i, s.len() as int) == line);
        }
    }
}

proof fn lemma_without_breaks(g: Gap, s: Seq<char>)
    requires
        steady(g, s),
    ensures
        steady(g, without_breaks(s)),
    decreases s.len(),
{
    if s.len() > 0 && s.last() == '\n' {
        lemma_without_breaks(g, s.drop_last());
    }
}

proof fn lemma_cleaned(s: Seq<char>)
    requires
        steady(start(), s),
    ensures
        steady(start(), cleaned(s)),
{
    let none: Seq<Seq<char>> = Seq::empty();
    assert(trimmed_lines(none) =~= none);
    lemma_lines(none, s, 0);
    let whole = joined(trimmed_lines(text_lines(s)), "\n"@);
    lemma_without_breaks(start(), whole);
    let body = without_breaks(whole);
    if body.len() > 0 {
        let text = cleaned(s);
        cleaned_text_ends_once(s);
        cleaned_lines_end_tidily(s);
        assert(text.drop_last() =~= body);
        assert(text[text.len() - 1] == '\n');
        assert(body.last() == text[text.len() - 2]);
        assert(!is_white(body.last()));
    }
}

/// Whether a text does not begin with a blank line, and nowhere has two of them
/// in a row.
pub open spec fn has_single_gaps(t: Seq<char>) -> bool {
    &&& t.len() > 0 ==> t[0] != '\n'
    &&& forall|i: int|
        0 <= i && i + 2 < t.len() ==> !(#[trigger] t[i] == '\n' && t[i + 1] == '\n' && t[i + 2]
            == '\n')
}

proof fn lemma_single_gaps(t: Seq<char>)
    requires
        steady(start(), t),
    ensures
        has_single_gaps(t),
{
    if t.len() > 0 && t[0] == '\n' {
        lemma_prefix(start(), t, 1);
        assert(t.take(1).drop_last() =~= Seq::<char>::empty());
        assert(after(start(), t.take(1).drop_last()) == start());
    }
    assert forall|i: int| 0 <= i && i + 2 < t.len() implies !(#[trigger] t[i] == '\n' && t[i + 1]
        == '\n' && t[i + 2] == '\n') by {
        if t[i] == '\n' && t[i + 1] == '\n' && t[i + 2] == '\n' {
            lemma_prefix(start(), t, i + 3);
            assert(t.take(i + 3).drop_last() =~= t.take(i + 2));
            assert(t.take(i + 2).drop_last() =~= t.take(i + 1));
            assert(t.take(i + 1).drop_last() =~= t.take(i));
            assert(after(start(), t.take(i + 1)).breaks >= 1);
            assert(after(start(), t.take(i + 2)).breaks >= 2);
        }
    }
}

/// A program whose texts are solid and none of whose lines is empty is written
/// without two blank lines in a row, and without one at the beginning.
pub proof fn written_programs_have_single_gaps(s: Seq<LineT>)
    requires
        sound_lines(s, true),
    ensures
        has_single_gaps(program_text(s)),
{
    lemma_program(s);
    let text = program_lines(s);
    if s.len() > 0 {
        assert(is_airy(start()));
        assert(steady(start(), text));
    } else {
        assert(steady(start(), text));
    }
    lemma_cleaned(text);
    lemma_single_gaps(program_text(s));
}

} // verus!
