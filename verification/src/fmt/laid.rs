//! How tokens and comments are laid out.
//!
//! What is written is the tokens and comments of a file, one after the other, with
//! white space between them. What may stand between two of them goes by their kinds.

use vstd::prelude::*;

use super::print::{
    atom_text, block_broken, block_lines, break_order, broken_text, close_char, deeper,
    element_text, elements_text, fitted, flat_atom, flat_atoms, flat_block,
    flat_elements, flat_group, gap, group_broken, is_spaced, lead_kind, line_text, open_char,
    open_kind, own_remarks, program_lines, program_text, remarks_above, remarks_after, rendered, space_between,
    spaced, tail_kind,
};
use super::lines::{is_tidy, tidy_texts_are_clean};
use super::tree::{close_kind, AtomT, BlockT, ElementT, GroupKind, GroupT, LineT};
use crate::error::is_white;
use crate::lexer::Kind;

verus! {

/// A token or a comment, with the white space before it.
#[verifier::ext_equal]
pub struct Piece {
    pub gap: Seq<char>,
    /// The kind of a token; none of a comment.
    pub kind: Option<Kind>,
    /// Whether the token is an operator that could have been a generic bracket.
    pub spaced: bool,
    pub text: Seq<char>,
}

/// The text of pieces.
pub open spec fn laid(s: Seq<Piece>) -> Seq<char>
    decreases s.len(),
{
    if s.len() == 0 {
        Seq::empty()
    } else {
        laid(s.drop_last()) + s.last().gap + s.last().text
    }
}

/// The kinds and texts of pieces, without the commas.
pub open spec fn said(s: Seq<Piece>) -> Seq<(Option<Kind>, Seq<char>)>
    decreases s.len(),
{
    if s.len() == 0 {
        Seq::empty()
    } else if s.last().kind == Some(Kind::Comma) {
        said(s.drop_last())
    } else {
        said(s.drop_last()).push((s.last().kind, s.last().text))
    }
}

/// Whether a text is white space of a layout: line breaks, and then spaces.
pub open spec fn is_blank(g: Seq<char>) -> bool {
    &&& forall|i: int| 0 <= i < g.len() ==> #[trigger] g[i] == ' ' || g[i] == '\n'
    &&& forall|i: int| 0 < i < g.len() && #[trigger] g[i] == '\n' ==> g[i - 1] == '\n'
}

/// Whether a text is an indentation.
pub open spec fn is_indent(g: Seq<char>) -> bool {
    forall|i: int| 0 <= i < g.len() ==> #[trigger] g[i] == ' '
}

/// Whether a text begins and ends with no white space, and no line of it does.
pub open spec fn is_neat(t: Seq<char>) -> bool {
    &&& t.len() > 0
    &&& !is_white(t[0])
    &&& !is_white(t.last())
    &&& is_tidy(t)
}

/// Whether a text is line breaks alone.
pub open spec fn is_breaks(g: Seq<char>) -> bool {
    forall|i: int| 0 <= i < g.len() ==> #[trigger] g[i] == '\n'
}

/// [`is_neat`], of comments.
pub open spec fn all_neat(s: Seq<Seq<char>>) -> bool {
    forall|i: int| 0 <= i < s.len() ==> is_neat(#[trigger] s[i])
}

/// Whether a text is on more than one line.
pub open spec fn breaks(g: Seq<char>) -> bool {
    g.contains('\n')
}

/// A generic bracket that opens or closes.
pub open spec fn is_angle(k: Kind, spaced: bool) -> bool {
    !spaced && (k is Lt || k is Gt || k is Shr || k is UShr)
}

/// The tokens that no space stands before.
pub open spec fn hugs_left(k: Kind, spaced: bool) -> bool {
    ||| k is Dot
    ||| k is ColonColon
    ||| k is Comma
    ||| k is Colon
    ||| k is RParen
    ||| k is RBracket
    ||| k is Question
    ||| is_angle(k, spaced)
}

/// The tokens that no space stands behind.
pub open spec fn hugs_right(k: Kind, spaced: bool) -> bool {
    ||| k is Dot
    ||| k is ColonColon
    ||| k is LParen
    ||| k is LBracket
    ||| k is Bang
    ||| k is Tilde
    ||| (k is Lt && !spaced)
}

/// The tokens that can end what is called.
pub open spec fn is_callee(k: Kind, spaced: bool) -> bool {
    ||| k is Ident
    ||| k is RParen
    ||| k is RBracket
    ||| k is RBrace
    ||| k is Question
    ||| k is Panic
    ||| k is At
    ||| ((k is Gt || k is Shr || k is UShr) && !spaced)
}

/// What stands between two tokens on one line: nothing or one space. An opening
/// brace and a comma have a space behind them, a closing brace one before it.
pub open spec fn between(a: Kind, a_spaced: bool, g: Seq<char>, b: Kind, b_spaced: bool) -> bool {
    if hugs_left(b, b_spaced) {
        g.len() == 0 || (g == seq![' '] && (a is LBrace || a is Comma))
    } else if hugs_right(a, a_spaced) {
        g.len() == 0 || (g == seq![' '] && b is RBrace)
    } else if b is LParen {
        if is_callee(a, a_spaced) {
            g.len() == 0
        } else {
            g == seq![' ']
        }
    } else if a is LBrace && b is RBrace {
        g.len() == 0 || g == seq![' ']
    } else {
        g == seq![' ']
    }
}

/// Whether the white space between two pieces is what their kinds ask for.
pub open spec fn parted(p: Piece, q: Piece) -> bool {
    breaks(q.gap) || match (p.kind, q.kind) {
        (Some(a), Some(b)) => between(a, p.spaced, q.gap, b, q.spaced),
        (_, None) => q.gap == seq![' '],
        (None, Some(_)) => false,
    }
}

/// Whether pieces are neat, with white space between them alone, as they ask for it.
pub open spec fn well_laid(s: Seq<Piece>) -> bool {
    &&& forall|i: int|
        0 <= i < s.len() ==> is_blank((#[trigger] s[i]).gap) && is_neat(s[i].text)
    &&& forall|i: int| 1 <= i < s.len() ==> parted(s[i - 1], #[trigger] s[i])
}

/// The text of an opening bracket.
pub open spec fn open_text(kind: GroupKind) -> Seq<char> {
    seq![open_char(kind)]
}

/// The text of a closing bracket.
pub open spec fn close_text(kind: GroupKind) -> Seq<char> {
    seq![close_char(kind)]
}

/// The tokens and comments of atoms, without the commas between elements.
pub open spec fn said_atoms(s: Seq<AtomT>) -> Seq<(Option<Kind>, Seq<char>)>
    decreases s,
{
    if s.len() == 0 {
        Seq::empty()
    } else {
        said_atoms(s.drop_last()) + said_atom(s.last())
    }
}

/// The tokens and comments of an atom.
pub open spec fn said_atom(a: AtomT) -> Seq<(Option<Kind>, Seq<char>)>
    decreases a,
{
    match a {
        AtomT::Leaf(leaf) => if leaf.kind is Comma {
            Seq::empty()
        } else {
            seq![(Some(leaf.kind), leaf.text)]
        },
        AtomT::Group(g) => said_group(g),
        AtomT::Block(b) => said_block(b),
    }
}

/// The tokens and comments of a group.
pub open spec fn said_group(g: GroupT) -> Seq<(Option<Kind>, Seq<char>)>
    decreases g,
{
    seq![(Some(open_kind(g.kind)), open_text(g.kind))] + said_elements(g.elements) + said_remarks(
        g.dangling,
    ) + seq![(Some(close_kind(g.kind)), close_text(g.kind))]
}

/// The tokens and comments of a block.
pub open spec fn said_block(b: BlockT) -> Seq<(Option<Kind>, Seq<char>)>
    decreases b,
{
    seq![(Some(Kind::LBrace), seq!['{'])] + said_lines(b.lines) + seq![
        (Some(Kind::RBrace), seq!['}']),
    ]
}

/// Comments.
pub open spec fn said_remarks(s: Seq<Seq<char>>) -> Seq<(Option<Kind>, Seq<char>)>
    decreases s.len(),
{
    if s.len() == 0 {
        Seq::empty()
    } else {
        said_remarks(s.drop_last()).push((None, s.last()))
    }
}

/// The tokens and comments of an element.
pub open spec fn said_element(e: ElementT) -> Seq<(Option<Kind>, Seq<char>)>
    decreases e,
{
    said_remarks(e.leading) + said_atoms(e.atoms) + said_remarks(e.trailing)
}

/// The tokens and comments of elements.
pub open spec fn said_elements(s: Seq<ElementT>) -> Seq<(Option<Kind>, Seq<char>)>
    decreases s,
{
    if s.len() == 0 {
        Seq::empty()
    } else {
        said_elements(s.drop_last()) + said_element(s.last())
    }
}

/// The tokens and comments of a line.
pub open spec fn said_line(l: LineT) -> Seq<(Option<Kind>, Seq<char>)>
    decreases l,
{
    said_atoms(l.atoms) + said_remarks(l.trailing)
}

/// The tokens and comments of lines.
pub open spec fn said_lines(s: Seq<LineT>) -> Seq<(Option<Kind>, Seq<char>)>
    decreases s,
{
    if s.len() == 0 {
        Seq::empty()
    } else {
        said_lines(s.drop_last()) + said_line(s.last())
    }
}

/// Whether there is something in every element and every line of an atom, and every
/// token and comment is neat.
pub open spec fn full_atom(a: AtomT) -> bool
    decreases a,
{
    match a {
        AtomT::Leaf(leaf) => is_neat(leaf.text),
        AtomT::Group(g) => full_group(g),
        AtomT::Block(b) => full_block(b),
    }
}

/// [`full_atom`] of a group.
pub open spec fn full_group(g: GroupT) -> bool
    decreases g,
{
    full_elements(g.elements) && all_neat(g.dangling)
}

/// [`full_atom`] of a block.
pub open spec fn full_block(b: BlockT) -> bool
    decreases b,
{
    full_lines(b.lines)
}

/// [`full_atom`] of atoms.
pub open spec fn full_atoms(s: Seq<AtomT>) -> bool
    decreases s,
{
    s.len() == 0 || (full_atoms(s.drop_last()) && full_atom(s.last()))
}

/// [`full_atom`] of an element.
pub open spec fn full_element(e: ElementT) -> bool
    decreases e,
{
    e.atoms.len() > 0 && full_atoms(e.atoms) && all_neat(e.leading) && all_neat(e.trailing)
}

/// [`full_atom`] of elements.
pub open spec fn full_elements(s: Seq<ElementT>) -> bool
    decreases s,
{
    s.len() == 0 || (full_elements(s.drop_last()) && full_element(s.last()))
}

/// [`full_atom`] of a line.
pub open spec fn full_line(l: LineT) -> bool
    decreases l,
{
    (l.atoms.len() > 0 || l.trailing.len() > 0) && full_atoms(l.atoms) && all_neat(l.trailing)
}

/// [`full_atom`] of lines.
pub open spec fn full_lines(s: Seq<LineT>) -> bool
    decreases s,
{
    s.len() == 0 || (full_lines(s.drop_last()) && full_line(s.last()))
}

/// Whether two pieces look alike to their neighbours.
spec fn alike(p: Piece, q: Piece) -> bool {
    p.kind == q.kind && p.spaced == q.spaced
}

/// A piece with another gap.
spec fn regap(p: Piece, g: Seq<char>) -> Piece {
    Piece { gap: g, ..p }
}

/// A token without a gap.
spec fn token(kind: Kind, spaced: bool, text: Seq<char>) -> Piece {
    Piece { gap: Seq::empty(), kind: Some(kind), spaced, text }
}

/// A comment without a gap.
spec fn remark(text: Seq<char>) -> Piece {
    Piece { gap: Seq::empty(), kind: None, spaced: false, text }
}

proof fn lemma_laid_cat(a: Seq<Piece>, b: Seq<Piece>)
    ensures
        laid(a + b) == laid(a) + laid(b),
        said(a + b) == said(a) + said(b),
    decreases b.len(),
{
    if b.len() == 0 {
        assert(a + b =~= a);
        assert(laid(a) + laid(b) =~= laid(a));
        assert(said(a) + said(b) =~= said(a));
    } else {
        lemma_laid_cat(a, b.drop_last());
        assert((a + b).drop_last() =~= a + b.drop_last());
        assert((a + b).last() == b.last());
        assert(laid(a + b) =~= laid(a) + laid(b));
        assert(said(a + b) =~= said(a) + said(b));
    }
}

proof fn lemma_all_neat(s: Seq<Seq<char>>)
    requires
        all_neat(s),
        s.len() > 0,
    ensures
        all_neat(s.drop_last()),
{
    assert forall|i: int| 0 <= i < s.drop_last().len() implies is_neat(
        #[trigger] s.drop_last()[i],
    ) by {
        assert(s.drop_last()[i] == s[i]);
    }
}

/// A bracket or a comma is neat.
proof fn lemma_sign(c: char)
    requires
        !is_white(c),
    ensures
        is_neat(seq![c]),
{
}

/// The brackets and the comma are no white space.
proof fn lemma_signs()
    ensures
        forall|k: GroupKind| is_neat(#[trigger] open_text(k)) && is_neat(close_text(k)),
        is_neat(seq![',']),
        is_neat(seq!['{']),
        is_neat(seq!['}']),
{
    assert forall|k: GroupKind| is_neat(#[trigger] open_text(k)) && is_neat(close_text(k)) by {
        lemma_sign(open_char(k));
        lemma_sign(close_char(k));
    }
    lemma_sign(',');
    lemma_sign('{');
    lemma_sign('}');
}

proof fn lemma_one(p: Piece)
    ensures
        laid(seq![p]) == p.gap + p.text,
        p.kind != Some(Kind::Comma) ==> said(seq![p]) == seq![(p.kind, p.text)],
        p.kind == Some(Kind::Comma) ==> said(seq![p]) == Seq::<(Option<Kind>, Seq<char>)>::empty(),
        is_blank(p.gap) && is_neat(p.text) ==> well_laid(seq![p]),
{
    let s = seq![p];
    let none = Seq::<Piece>::empty();
    assert(s.drop_last() =~= none);
    assert(s.last() == p);
    assert(laid(none) =~= Seq::<char>::empty());
    assert(said(none) =~= Seq::<(Option<Kind>, Seq<char>)>::empty());
    assert(laid(s) == laid(none) + p.gap + p.text);
    assert(laid(s) =~= p.gap + p.text);
    if p.kind != Some(Kind::Comma) {
        assert(said(s) =~= seq![(p.kind, p.text)]);
    } else {
        assert(said(s) =~= Seq::<(Option<Kind>, Seq<char>)>::empty());
    }
}

/// Pieces whose first gap is another.
proof fn lemma_regap(b: Seq<Piece>, g: Seq<char>)
    requires
        b.len() > 0,
        b[0].gap.len() == 0,
    ensures
        laid(b.update(0, regap(b[0], g))) == g + laid(b),
        said(b.update(0, regap(b[0], g))) == said(b),
{
    let first = regap(b[0], g);
    let rest = b.drop_first();
    lemma_one(first);
    lemma_one(b[0]);
    lemma_laid_cat(seq![first], rest);
    lemma_laid_cat(seq![b[0]], rest);
    assert(seq![b[0]] + rest =~= b);
    assert(seq![first] + rest =~= b.update(0, first));
    assert(b[0].gap + b[0].text =~= b[0].text);
    assert((g + b[0].text) + laid(rest) =~= g + (b[0].text + laid(rest)));
}

/// Pieces behind pieces, with white space between.
proof fn join(a: Seq<Piece>, g: Seq<char>, b: Seq<Piece>) -> (r: Seq<Piece>)
    requires
        well_laid(a),
        well_laid(b),
        b.len() > 0,
        b[0].gap.len() == 0,
        is_blank(g),
        a.len() > 0 ==> parted(a.last(), regap(b[0], g)),
    ensures
        r.len() == a.len() + b.len(),
        laid(r) == laid(a) + g + laid(b),
        said(r) == said(a) + said(b),
        well_laid(r),
        alike(r.last(), b.last()),
        r[0] == if a.len() > 0 {
            a[0]
        } else {
            regap(b[0], g)
        },
{
    let first = regap(b[0], g);
    let c = b.update(0, first);
    lemma_regap(b, g);
    let r = a + c;
    lemma_laid_cat(a, c);
    assert(laid(a) + (g + laid(b)) =~= laid(a) + g + laid(b));
    lemma_joined(a, g, b);
    r
}

proof fn lemma_joined(a: Seq<Piece>, g: Seq<char>, b: Seq<Piece>)
    requires
        well_laid(a),
        well_laid(b),
        b.len() > 0,
        is_blank(g),
        a.len() > 0 ==> parted(a.last(), regap(b[0], g)),
    ensures
        well_laid(a + b.update(0, regap(b[0], g))),
{
    let first = regap(b[0], g);
    let c = b.update(0, first);
    let r = a + c;
    assert forall|i: int| 0 <= i < r.len() implies is_blank((#[trigger] r[i]).gap)
        && is_neat(r[i].text) by {
        if i > a.len() {
            assert(r[i] == b[i - a.len()]);
        } else if i < a.len() {
            assert(r[i] == a[i]);
        } else {
            assert(r[i] == first);
        }
    }
    assert forall|i: int| 1 <= i < r.len() implies parted(r[i - 1], #[trigger] r[i]) by {
        if i < a.len() {
            assert(r[i] == a[i] && r[i - 1] == a[i - 1]);
        } else if i == a.len() {
            assert(r[i] == first);
            assert(r[i - 1] == a.last());
        } else {
            let k = i - a.len();
            assert(r[i] == b[k]);
            assert(parted(b[k - 1], b[k]));
            assert(alike(r[i - 1], b[k - 1]));
        }
    }
}

/// What is decided between two tokens is what their kinds ask for.
proof fn lemma_between(a: Kind, a_spaced: bool, b: Kind, b_spaced: bool)
    ensures
        between(
            a,
            a_spaced,
            if space_between(a, a_spaced, b, b_spaced) {
                seq![' ']
            } else {
                Seq::empty()
            },
            b,
            b_spaced,
        ),
{
}

/// What stands before the last of the atoms.
spec fn gap_text(s: Seq<AtomT>) -> Seq<char> {
    if gap(s) {
        seq![' ']
    } else {
        Seq::empty()
    }
}

/// Whether pieces begin and end as atoms do.
spec fn edged(r: Seq<Piece>, s: Seq<AtomT>) -> bool {
    &&& (r.len() == 0) == (s.len() == 0)
    &&& s.len() > 0 ==> {
        &&& r[0].gap.len() == 0
        &&& r[0].kind == Some(lead_kind(s[0]))
        &&& r[0].spaced == is_spaced(s[0])
        &&& r.last().kind == Some(tail_kind(s.last()))
        &&& r.last().spaced == is_spaced(s.last())
    }
}

/// [`edged`], of one atom.
spec fn edged_one(r: Seq<Piece>, a: AtomT) -> bool {
    &&& r.len() > 0
    &&& r[0].gap.len() == 0
    &&& r[0].kind == Some(lead_kind(a))
    &&& r[0].spaced == is_spaced(a)
    &&& r.last().kind == Some(tail_kind(a))
    &&& r.last().spaced == is_spaced(a)
}

/// An atom behind atoms.
proof fn join_atoms(before: Seq<Piece>, s: Seq<AtomT>, last: Seq<Piece>) -> (r: Seq<Piece>)
    requires
        s.len() > 0,
        edged(before, s.drop_last()),
        edged_one(last, s.last()),
        well_laid(before),
        well_laid(last),
    ensures
        edged(r, s),
        well_laid(r),
        laid(r) == spaced(laid(before), s) + laid(last),
        said(r) == said(before) + said(last),
{
    let g = gap_text(s);
    if s.len() >= 2 {
        let p = s[s.len() - 2];
        assert(s.drop_last().last() == p);
        lemma_between(tail_kind(p), is_spaced(p), lead_kind(s.last()), is_spaced(s.last()));
    }
    let r = join(before, g, last);
    assert(laid(r) =~= spaced(laid(before), s) + laid(last));
    if s.len() >= 2 {
        assert(s.drop_last()[0] == s[0]);
    } else {
        assert(g.len() == 0);
    }
    r
}

/// Every token of an atom on one line.
proof fn lay_flat_atoms(s: Seq<AtomT>) -> (r: Seq<Piece>)
    requires
        flat_atoms(s) is Some,
        full_atoms(s),
    ensures
        laid(r) == flat_atoms(s)->Some_0,
        well_laid(r),
        edged(r, s),
        said(r) == said_atoms(s),
    decreases s,
{
    if s.len() == 0 {
        Seq::empty()
    } else {
        let before = lay_flat_atoms(s.drop_last());
        let last = lay_flat_atom(s.last());
        join_atoms(before, s, last)
    }
}

proof fn lay_leaf(kind: Kind, is: bool, text: Seq<char>) -> (r: Seq<Piece>)
    requires
        is_neat(text),
    ensures
        laid(r) == text,
        well_laid(r),
        r.len() == 1,
        r[0] == token(kind, is, text),
        said(r) == if kind is Comma {
            Seq::empty()
        } else {
            seq![(Some(kind), text)]
        },
{
    let p = token(kind, is, text);
    lemma_one(p);
    assert(p.gap + p.text =~= text);
    seq![p]
}

proof fn lay_flat_atom(a: AtomT) -> (r: Seq<Piece>)
    requires
        flat_atom(a) is Some,
        full_atom(a),
    ensures
        laid(r) == flat_atom(a)->Some_0,
        well_laid(r),
        edged_one(r, a),
        said(r) == said_atom(a),
    decreases a,
{
    match a {
        AtomT::Leaf(leaf) => lay_leaf(leaf.kind, leaf.spaced, leaf.text),
        AtomT::Group(g) => lay_flat_group(g),
        AtomT::Block(b) => lay_flat_block(b),
    }
}

proof fn lay_flat_elements(s: Seq<ElementT>) -> (r: Seq<Piece>)
    requires
        flat_elements(s) is Some,
        full_elements(s),
    ensures
        laid(r) == flat_elements(s)->Some_0,
        well_laid(r),
        (r.len() == 0) == (s.len() == 0),
        s.len() > 0 ==> r[0].gap.len() == 0 && r[0].kind is Some && r.last().kind is Some
            && flat_elements(s)->Some_0.len() > 0,
        said(r) == said_elements(s),
    decreases s,
{
    lemma_signs();
    if s.len() == 0 {
        Seq::empty()
    } else {
        let e = s.last();
        assert(full_element(e));
        let before = lay_flat_elements(s.drop_last());
        let last = lay_flat_atoms(e.atoms);
        lemma_full_text(e.atoms);
        assert(said_element(e) =~= said_atoms(e.atoms)) by {
            assert(said_remarks(e.leading).len() == 0);
            assert(said_remarks(e.trailing).len() == 0);
        }
        if s.len() == 1 {
            let r = last;
            assert(laid(r) =~= flat_elements(s)->Some_0);
            assert(said_elements(s.drop_last()).len() == 0);
            assert(said(r) =~= said_elements(s));
            r
        } else {
            let comma = lay_leaf(Kind::Comma, false, seq![',']);
            let more = join(before, Seq::empty(), comma);
            let r = join(more, seq![' '], last);
            reveal_strlit(", ");
            assert(laid(r) =~= flat_elements(s)->Some_0);
            assert(said(r) =~= said_elements(s));
            r
        }
    }
}

/// Atoms have a text.
proof fn lemma_full_text(s: Seq<AtomT>)
    requires
        flat_atoms(s) is Some,
        full_atoms(s),
        s.len() > 0,
    ensures
        flat_atoms(s)->Some_0.len() > 0,
{
    let a = s.last();
    assert(full_atom(a));
    assert(flat_atom(a) is Some);
    reveal_strlit("(");
    reveal_strlit("[");
    reveal_strlit("{}");
    reveal_strlit("{ ");
    match a {
        AtomT::Leaf(leaf) => {
            assert(flat_atom(a)->Some_0 == leaf.text);
        },
        AtomT::Group(g) => {
            assert(flat_atom(a) == flat_group(g));
            assert(flat_elements(g.elements) is Some);
        },
        AtomT::Block(b) => {
            assert(flat_atom(a) == flat_block(b));
        },
    }
    assert(flat_atom(a)->Some_0.len() > 0);
}

/// Pieces in brackets.
proof fn bracket(kind: GroupKind, inner: Seq<Piece>, g: Seq<char>) -> (r: Seq<Piece>)
    requires
        well_laid(inner),
        inner.len() > 0,
        inner[0].gap.len() == 0,
        inner[0].kind is Some,
        inner.last().kind is Some,
        g == if kind is Brace {
            seq![' ']
        } else {
            Seq::empty()
        },
    ensures
        laid(r) == open_text(kind) + g + laid(inner) + g + close_text(kind),
        well_laid(r),
        r.len() > 0,
        r[0] == token(open_kind(kind), false, open_text(kind)),
        alike(r.last(), token(close_kind(kind), false, close_text(kind))),
        said(r) == seq![(Some(open_kind(kind)), open_text(kind))] + said(inner) + seq![
            (Some(close_kind(kind)), close_text(kind)),
        ],
{
    lemma_signs();
    let first = lay_leaf(open_kind(kind), false, open_text(kind));
    let last = lay_leaf(close_kind(kind), false, close_text(kind));
    let more = join(first, g, inner);
    join(more, g, last)
}

/// Brackets with nothing inside.
proof fn empty_bracket(kind: GroupKind) -> (r: Seq<Piece>)
    ensures
        laid(r) == open_text(kind) + close_text(kind),
        well_laid(r),
        r.len() > 0,
        r[0] == token(open_kind(kind), false, open_text(kind)),
        alike(r.last(), token(close_kind(kind), false, close_text(kind))),
        said(r) == seq![
            (Some(open_kind(kind)), open_text(kind)),
            (Some(close_kind(kind)), close_text(kind)),
        ],
{
    lemma_signs();
    let first = lay_leaf(open_kind(kind), false, open_text(kind));
    let last = lay_leaf(close_kind(kind), false, close_text(kind));
    let r = join(first, Seq::empty(), last);
    assert(laid(r) =~= open_text(kind) + close_text(kind));
    assert(said(r) =~= seq![
        (Some(open_kind(kind)), open_text(kind)),
        (Some(close_kind(kind)), close_text(kind)),
    ]);
    r
}

proof fn lay_flat_group(g: GroupT) -> (r: Seq<Piece>)
    requires
        flat_group(g) is Some,
        full_group(g),
    ensures
        laid(r) == flat_group(g)->Some_0,
        well_laid(r),
        edged_one(r, AtomT::Group(g)),
        said(r) == said_group(g),
    decreases g,
{
    let inner = lay_flat_elements(g.elements);
    reveal_strlit("(");
    reveal_strlit(")");
    reveal_strlit("[");
    reveal_strlit("]");
    reveal_strlit("{ ");
    reveal_strlit(" }");
    reveal_strlit("{}");
    assert(said_remarks(g.dangling).len() == 0);
    if g.elements.len() == 0 {
        let r = empty_bracket(g.kind);
        assert(laid(r) =~= flat_group(g)->Some_0);
        assert(said(r) =~= said_group(g));
        r
    } else {
        let space = if g.kind is Brace {
            seq![' ']
        } else {
            Seq::empty()
        };
        let r = bracket(g.kind, inner, space);
        assert(laid(r) =~= flat_group(g)->Some_0);
        assert(said(r) =~= said_group(g));
        r
    }
}

proof fn lay_flat_block(b: BlockT) -> (r: Seq<Piece>)
    requires
        flat_block(b) is Some,
        full_block(b),
    ensures
        laid(r) == flat_block(b)->Some_0,
        well_laid(r),
        edged_one(r, AtomT::Block(b)),
        said(r) == said_block(b),
    decreases b,
{
    reveal_strlit("{ ");
    reveal_strlit(" }");
    reveal_strlit("{}");
    if b.lines.len() == 0 {
        let r = empty_bracket(GroupKind::Brace);
        assert(laid(r) =~= flat_block(b)->Some_0);
        assert(said(r) =~= said_block(b));
        r
    } else {
        let l = b.lines[0];
        assert(b.lines.last() == l);
        assert(full_line(l));
        let inner = lay_flat_atoms(l.atoms);
        let r = bracket(GroupKind::Brace, inner, seq![' ']);
        assert(laid(r) =~= flat_block(b)->Some_0);
        assert(said_lines(b.lines.drop_last()).len() == 0);
        assert(said_remarks(l.trailing).len() == 0);
        assert(said_lines(b.lines) =~= said_atoms(l.atoms)) by {
            assert(said_line(l) =~= said_atoms(l.atoms));
        }
        assert(said(r) =~= said_block(b));
        r
    }
}

/// Every token of atoms, some of which are broken.
proof fn lay_rendered(s: Seq<AtomT>, pad: Seq<char>, broken: Seq<int>) -> (r: Seq<Piece>)
    requires
        full_atoms(s),
        is_indent(pad),
    ensures
        rendered(s, pad, broken) == pad + laid(r),
        well_laid(r),
        edged(r, s),
        said(r) == said_atoms(s),
    decreases s, 1nat, 0int,
{
    if s.len() == 0 {
        let r = Seq::<Piece>::empty();
        assert(pad + laid(r) =~= pad);
        r
    } else {
        let before = lay_rendered(s.drop_last(), pad, broken);
        let last = lay_atom(s.last(), pad, broken.contains(s.len() - 1));
        let r = join_atoms(before, s, last);
        assert(spaced(pad + laid(before), s) =~= pad + spaced(laid(before), s));
        assert((pad + spaced(laid(before), s)) + laid(last) =~= pad + (spaced(laid(before), s)
            + laid(last)));
        r
    }
}

proof fn lay_fitted(s: Seq<AtomT>, pad: Seq<char>, cut: nat) -> (r: Seq<Piece>)
    requires
        full_atoms(s),
        is_indent(pad),
    ensures
        fitted(s, pad, cut) == pad + laid(r),
        well_laid(r),
        edged(r, s),
        said(r) == said_atoms(s),
    decreases s, 2nat, break_order(s).len() - cut,
{
    let order = break_order(s);
    if cut >= order.len() {
        lay_rendered(s, pad, order)
    } else {
        let r = lay_rendered(s, pad, order.take(cut as int));
        if fitted(s, pad, cut) == rendered(s, pad, order.take(cut as int)) {
            r
        } else {
            lay_fitted(s, pad, cut + 1)
        }
    }
}

proof fn lay_atom(a: AtomT, pad: Seq<char>, broken: bool) -> (r: Seq<Piece>)
    requires
        full_atom(a),
        is_indent(pad),
    ensures
        laid(r) == atom_text(a, pad, broken),
        well_laid(r),
        edged_one(r, a),
        said(r) == said_atom(a),
    decreases a, 0nat, 1int,
{
    if flat_atom(a) is Some && !broken {
        lay_flat_atom(a)
    } else {
        lay_broken(a, pad)
    }
}

proof fn lay_broken(a: AtomT, pad: Seq<char>) -> (r: Seq<Piece>)
    requires
        full_atom(a),
        is_indent(pad),
    ensures
        laid(r) == broken_text(a, pad),
        well_laid(r),
        edged_one(r, a),
        said(r) == said_atom(a),
    decreases a, 0nat, 0int,
{
    match a {
        AtomT::Leaf(leaf) => lay_leaf(leaf.kind, leaf.spaced, leaf.text),
        AtomT::Group(g) => lay_group_broken(g, pad),
        AtomT::Block(b) => lay_block_broken(b, pad),
    }
}

proof fn lay_remark(text: Seq<char>) -> (r: Seq<Piece>)
    requires
        is_neat(text),
    ensures
        laid(r) == text,
        well_laid(r),
        r.len() == 1,
        r[0] == remark(text),
        said(r) == seq![(None::<Kind>, text)],
{
    let p = remark(text);
    lemma_one(p);
    assert(p.gap + p.text =~= text);
    seq![p]
}

/// A line break and an indentation.
spec fn broken_gap(pad: Seq<char>) -> Seq<char> {
    seq!['\n'] + pad
}

proof fn lemma_broken_gap(pad: Seq<char>)
    requires
        is_indent(pad),
    ensures
        is_blank(broken_gap(pad)),
        breaks(broken_gap(pad)),
{
    assert(broken_gap(pad)[0] == '\n');
}

/// Comments on lines of their own.
proof fn lay_above(a: Seq<Piece>, s: Seq<Seq<char>>, pad: Seq<char>) -> (r: Seq<Piece>)
    requires
        well_laid(a),
        a.len() > 0,
        is_indent(pad),
        all_neat(s),
    ensures
        laid(r) == remarks_above(laid(a), s, pad),
        well_laid(r),
        r.len() > 0,
        r[0] == a[0],
        said(r) == said(a) + said_remarks(s),
    decreases s.len(),
{
    if s.len() == 0 {
        assert(said(a) + said_remarks(s) =~= said(a));
        a
    } else {
        let before = lay_above(a, s.drop_last(), pad);
        assert(s[s.len() - 1] == s.last());
        lemma_all_neat(s);
        let last = lay_remark(s.last());
        lemma_broken_gap(pad);
        let r = join(before, broken_gap(pad), last);
        assert(laid(before) + broken_gap(pad) + s.last() =~= laid(before).push('\n') + pad
            + s.last());
        assert(said(r) =~= said(a) + said_remarks(s));
        r
    }
}

/// Comments at the end of a line.
proof fn lay_after(a: Seq<Piece>, s: Seq<Seq<char>>) -> (r: Seq<Piece>)
    requires
        well_laid(a),
        a.len() > 0,
        all_neat(s),
    ensures
        laid(r) == remarks_after(laid(a), s),
        well_laid(r),
        r.len() > 0,
        r[0] == a[0],
        said(r) == said(a) + said_remarks(s),
    decreases s.len(),
{
    if s.len() == 0 {
        assert(said(a) + said_remarks(s) =~= said(a));
        a
    } else {
        let before = lay_after(a, s.drop_last());
        assert(s[s.len() - 1] == s.last());
        lemma_all_neat(s);
        let last = lay_remark(s.last());
        let r = join(before, seq![' '], last);
        assert(laid(before) + seq![' '] + s.last() =~= laid(before).push(' ') + s.last());
        assert(said(r) =~= said(a) + said_remarks(s));
        r
    }
}

proof fn lay_element(a: Seq<Piece>, e: ElementT, pad: Seq<char>) -> (r: Seq<Piece>)
    requires
        well_laid(a),
        a.len() > 0,
        is_indent(pad),
        full_element(e),
    ensures
        laid(r) == element_text(laid(a), e, pad),
        well_laid(r),
        r.len() > 0,
        r[0] == a[0],
        said(r) == said(a) + said_element(e),
    decreases e, 0nat, 0int,
{
    lemma_signs();
    let above = lay_above(a, e.leading, pad);
    let inner = lay_fitted(e.atoms, pad, 0);
    lemma_broken_gap(pad);
    let more = join(above, broken_gap(pad), inner);
    let comma = lay_leaf(Kind::Comma, false, seq![',']);
    let ended = join(more, Seq::empty(), comma);
    let text = remarks_above(laid(a), e.leading, pad);
    assert(laid(ended) =~= (text.push('\n') + (pad + laid(inner))).push(','));
    let r = lay_after(ended, e.trailing);
    assert(said(r) =~= said(a) + said_element(e));
    r
}

proof fn lay_elements(a: Seq<Piece>, s: Seq<ElementT>, pad: Seq<char>) -> (r: Seq<Piece>)
    requires
        well_laid(a),
        a.len() > 0,
        is_indent(pad),
        full_elements(s),
    ensures
        laid(r) == elements_text(laid(a), s, pad),
        well_laid(r),
        r.len() > 0,
        r[0] == a[0],
        said(r) == said(a) + said_elements(s),
    decreases s, 0nat, 0int,
{
    if s.len() == 0 {
        assert(said(a) + said_elements(s) =~= said(a));
        a
    } else {
        let before = lay_elements(a, s.drop_last(), pad);
        let r = lay_element(before, s.last(), pad);
        assert(said(r) =~= said(a) + said_elements(s));
        r
    }
}

proof fn lemma_deeper(pad: Seq<char>)
    requires
        is_indent(pad),
    ensures
        is_indent(deeper(pad)),
{
    reveal_strlit("    ");
}

proof fn lay_group_broken(g: GroupT, pad: Seq<char>) -> (r: Seq<Piece>)
    requires
        full_group(g),
        is_indent(pad),
    ensures
        laid(r) == group_broken(g, pad),
        well_laid(r),
        edged_one(r, AtomT::Group(g)),
        said(r) == said_group(g),
    decreases g, 0nat, 0int,
{
    lemma_signs();
    let inner = deeper(pad);
    lemma_deeper(pad);
    lemma_broken_gap(pad);
    let first = lay_leaf(open_kind(g.kind), false, open_text(g.kind));
    assert(open_text(g.kind) =~= Seq::empty().push(open_char(g.kind)));
    let more = lay_elements(first, g.elements, inner);
    let above = lay_above(more, g.dangling, inner);
    let last = lay_leaf(close_kind(g.kind), false, close_text(g.kind));
    let r = join(above, broken_gap(pad), last);
    assert(laid(r) =~= (laid(above).push('\n') + pad).push(close_char(g.kind)));
    assert(said(r) =~= said_group(g));
    r
}

#[verifier::rlimit(40)]
proof fn lay_block_broken(b: BlockT, pad: Seq<char>) -> (r: Seq<Piece>)
    requires
        full_block(b),
        is_indent(pad),
    ensures
        laid(r) == block_broken(b, pad),
        well_laid(r),
        edged_one(r, AtomT::Block(b)),
        said(r) == said_block(b),
    decreases b, 0nat, 0int,
{
    lemma_signs();
    reveal_strlit("{");
    reveal_strlit("{}");
    if b.lines.len() == 0 {
        let r = empty_bracket(GroupKind::Brace);
        assert(laid(r) =~= "{}"@);
        assert(said(r) =~= said_block(b));
        r
    } else {
        let inner = deeper(pad);
        lemma_deeper(pad);
        lemma_broken_gap(pad);
        let first = lay_leaf(Kind::LBrace, false, seq!['{']);
        assert("{"@ =~= seq!['{']);
        let more = lay_block_lines(first, b.lines, inner);
        let last = lay_leaf(Kind::RBrace, false, seq!['}']);
        let r = join(more, broken_gap(pad), last);
        assert(laid(r) =~= (laid(more).push('\n') + pad).push('}'));
        assert(said(r) =~= said_block(b));
        r
    }
}

proof fn lay_block_lines(a: Seq<Piece>, s: Seq<LineT>, pad: Seq<char>) -> (r: Seq<Piece>)
    requires
        well_laid(a),
        a.len() > 0,
        is_indent(pad),
        full_lines(s),
    ensures
        laid(r) == block_lines(laid(a), s, pad),
        well_laid(r),
        r.len() > 0,
        r[0] == a[0],
        said(r) == said(a) + said_lines(s),
    decreases s, 0nat, 0int,
{
    if s.len() == 0 {
        assert(said(a) + said_lines(s) =~= said(a));
        a
    } else {
        let before = lay_block_lines(a, s.drop_last(), pad);
        let g = if s.len() > 1 && s.last().blank_before {
            seq!['\n', '\n']
        } else {
            seq!['\n']
        };
        assert(g[0] == '\n');
        let r = lay_line(before, g, s.last(), pad);
        let ended = if s.len() > 1 && s.last().blank_before {
            laid(before).push('\n')
        } else {
            laid(before)
        };
        assert(laid(before) + g =~= ended.push('\n'));
        assert(said(r) =~= said(a) + said_lines(s));
        r
    }
}

/// Comments that are a line of their own, behind what stands before the line.
proof fn lay_own(a: Seq<Piece>, g: Seq<char>, s: Seq<Seq<char>>, pad: Seq<char>) -> (r: Seq<Piece>)
    requires
        well_laid(a),
        is_breaks(g),
        is_indent(pad),
        a.len() > 0 ==> breaks(g),
        s.len() > 0,
        all_neat(s),
    ensures
        laid(r) == laid(a) + g + own_remarks(s, pad),
        well_laid(r),
        r.len() > 0,
        a.len() > 0 ==> r[0] == a[0],
        r.last().kind is None,
        said(r) == said(a) + said_remarks(s),
    decreases s.len(),
{
    assert(s[s.len() - 1] == s.last());
    lemma_all_neat(s);
    let last = lay_remark(s.last());
    if s.len() == 1 {
        lemma_gap_and_pad(g, pad);
        let r = join(a, g + pad, last);
        assert(own_remarks(s.drop_last(), pad) == pad);
        assert(laid(a) + (g + pad) + s.last() =~= laid(a) + g + (pad + s.last()));
        assert(said_remarks(s) =~= seq![(None::<Kind>, s.last())]) by {
            assert(said_remarks(s.drop_last()).len() == 0);
        }
        r
    } else {
        let before = lay_own(a, g, s.drop_last(), pad);
        let r = join(before, seq![' '], last);
        let front = own_remarks(s.drop_last(), pad);
        assert(laid(a) + g + front + seq![' '] + s.last() =~= laid(a) + g + (front.push(' ')
            + s.last()));
        assert(said(r) =~= said(a) + said_remarks(s));
        r
    }
}

proof fn lemma_gap_and_pad(g: Seq<char>, pad: Seq<char>)
    requires
        is_breaks(g),
        is_indent(pad),
    ensures
        is_blank(g + pad),
        breaks(g) ==> breaks(g + pad),
{
    if breaks(g) {
        let i = choose|i: int| 0 <= i < g.len() && g[i] == '\n';
        assert((g + pad)[i] == '\n');
    }
}

/// A line, behind what stands before it.
proof fn lay_line(a: Seq<Piece>, g: Seq<char>, l: LineT, pad: Seq<char>) -> (r: Seq<Piece>)
    requires
        well_laid(a),
        is_breaks(g),
        is_indent(pad),
        a.len() > 0 ==> breaks(g),
        full_line(l),
    ensures
        laid(r) == laid(a) + g + line_text(l, pad),
        well_laid(r),
        r.len() > 0,
        a.len() > 0 ==> r[0] == a[0],
        said(r) == said(a) + said_line(l),
    decreases l, 0nat, 0int,
{
    if l.atoms.len() == 0 {
        let r = lay_own(a, g, l.trailing, pad);
        assert(said_atoms(l.atoms).len() == 0);
        assert(said_line(l) =~= said_remarks(l.trailing));
        r
    } else {
        lemma_gap_and_pad(g, pad);
        let inner = lay_fitted(l.atoms, pad, 0);
        let more = join(a, g + pad, inner);
        let text = fitted(l.atoms, pad, 0);
        assert(laid(more) =~= laid(a) + g + text);
        let r = lay_after(more, l.trailing);
        lemma_after_cat(laid(a) + g, text, l.trailing);
        assert(said(r) =~= said(a) + said_line(l));
        r
    }
}

proof fn lemma_after_cat(a: Seq<char>, b: Seq<char>, s: Seq<Seq<char>>)
    ensures
        remarks_after(a + b, s) == a + remarks_after(b, s),
    decreases s.len(),
{
    if s.len() > 0 {
        lemma_after_cat(a, b, s.drop_last());
        let before = remarks_after(b, s.drop_last());
        assert((a + before).push(' ') + s.last() =~= a + (before.push(' ') + s.last()));
    }
}

/// Every token of a file.
proof fn lay_program(s: Seq<LineT>) -> (r: Seq<Piece>)
    requires
        full_lines(s),
    ensures
        laid(r) == program_lines(s),
        well_laid(r),
        (r.len() == 0) == (s.len() == 0),
        said(r) == said_lines(s),
    decreases s.len(),
{
    if s.len() == 0 {
        let r = Seq::<Piece>::empty();
        assert(laid(r) =~= program_lines(s));
        assert(said(r) =~= said_lines(s));
        r
    } else {
        let before = lay_program(s.drop_last());
        let pad = Seq::<char>::empty();
        let g = if s.len() == 1 {
            Seq::<char>::empty()
        } else if s.last().blank_before {
            seq!['\n', '\n']
        } else {
            seq!['\n']
        };
        if s.len() > 1 {
            assert(g[0] == '\n');
        }
        let r = lay_line(before, g, s.last(), pad);
        let text = laid(before);
        if s.len() == 1 {
            assert(text + g =~= text);
        } else if s.last().blank_before {
            assert(text + g =~= text.push('\n').push('\n'));
        } else {
            assert(text + g =~= text.push('\n'));
        }
        r
    }
}

/// What is written of a file is its tokens and comments in their order, apart from
/// commas, with white space between them alone. On one line no space stands before or
/// behind a `.` or a `::`, none before `,` `:` `)` `]` `?`, none behind `(` `[` `!`
/// `~`, none around generic brackets but behind a closing one, none between what is
/// called and its arguments, and one space between any two other tokens.
pub proof fn tokens_are_laid_out_by_their_kinds(s: Seq<LineT>)
    requires
        full_lines(s),
    ensures
        exists|r: Seq<Piece>|
            #![trigger laid(r)]
            {
                &&& laid(r) == program_lines(s)
                &&& said(r) == said_lines(s)
                &&& well_laid(r)
            },
{
    let r = lay_program(s);
}

/// Pieces that are laid out well leave no white space at the end of a line.
proof fn lemma_tidy(r: Seq<Piece>)
    requires
        well_laid(r),
    ensures
        is_tidy(laid(r)),
        r.len() > 0 ==> laid(r).len() > 0 && !is_white(laid(r).last()),
    decreases r.len(),
{
    if r.len() > 0 {
        let front = r.drop_last();
        assert forall|i: int| 0 <= i < front.len() implies is_blank((#[trigger] front[i]).gap)
            && is_neat(front[i].text) by {
            assert(front[i] == r[i]);
        }
        assert forall|i: int| 1 <= i < front.len() implies parted(front[i - 1], #[trigger] front[i]) by {
            assert(front[i] == r[i] && front[i - 1] == r[i - 1]);
        }
        lemma_tidy(front);
        let p = r[r.len() - 1];
        lemma_tidy_more(laid(front), p.gap, p.text);
    }
}

proof fn lemma_tidy_more(a: Seq<char>, g: Seq<char>, t: Seq<char>)
    requires
        is_tidy(a),
        a.len() > 0 ==> !is_white(a.last()),
        is_blank(g),
        is_neat(t),
    ensures
        is_tidy(a + g + t),
        !is_white((a + g + t).last()),
{
    let s = a + g + t;
    let n = a.len() as int;
    let k = n + g.len();
    assert forall|i: int| 0 < i < s.len() && #[trigger] s[i] == '\n' implies s[i - 1] == '\n'
        || !is_white(s[i - 1]) by {
        if i < n {
            assert(a[i] == '\n' && s[i - 1] == a[i - 1]);
        } else if i < k {
            assert(g[i - n] == '\n');
            if i > n {
                assert(g[i - n - 1] == '\n');
                assert(s[i - 1] == g[i - n - 1]);
            } else {
                assert(s[i - 1] == a.last());
            }
        } else if i == k {
            assert(t[0] == '\n');
            assert(is_white('\n'));
        } else {
            assert(t[i - k] == '\n' && s[i - 1] == t[i - k - 1]);
        }
    }
    assert(s.last() == t.last());
}

/// The canonical form of a file is its tokens and comments in their order, apart from
/// commas, laid out by their kinds, and a line break at the end.
pub proof fn written_files_are_laid_out_by_their_kinds(s: Seq<LineT>)
    requires
        full_lines(s),
        s.len() > 0,
    ensures
        exists|r: Seq<Piece>|
            #![trigger laid(r)]
            {
                &&& program_text(s) == laid(r).push('\n')
                &&& said(r) == said_lines(s)
                &&& well_laid(r)
            },
{
    let r = lay_program(s);
    lemma_tidy(r);
    tidy_texts_are_clean(laid(r));
}

} // verus!
