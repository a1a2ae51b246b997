//! Rendering of the tree of lines.
//!
//! Rendering is width-aware: a line that is too wide breaks its groups in a
//! deterministic order (the trailing body block first, then the remaining
//! groups left to right), each broken group putting one element per line with a
//! trailing comma.

use vstd::prelude::*;

use super::lines::{clean, cleaned, fits, fitting};
use super::tree::{
    atoms, close_kind, elements, lines, Atom, AtomT, BlockNode, BlockT, Element, ElementT, Group,
    GroupKind, GroupT, Line, LineT,
};
use crate::lexer::{Kind, TokenKind};
use crate::strings::{owned, texts};

verus! {

/// The canonical spacing between two adjacent rendered tokens. `prev_spaced`
/// and `next_spaced` mark `<`, `>`, `<<`, `>>` and `>>>` tokens that are
/// operators rather than generic brackets; those fall through to the spaced
/// default, while an unmarked one is a tight generic bracket.
pub open spec fn space_between(prev: Kind, prev_spaced: bool, next: Kind, next_spaced: bool) -> bool {
    if next is Comma || next is RParen || next is RBracket || next is Question || next is Dot
        || next is ColonColon || next is Colon {
        // Separators and postfix operators attach tightly to the left.
        false
    } else if prev is LParen || prev is LBracket || prev is Dot || prev is ColonColon
        || prev is Bang || prev is Tilde {
        // Openers and prefix operators attach tightly to the right.
        false
    } else if prev is Lt && !prev_spaced {
        false
    } else if (next is Lt || next is Gt || next is Shr || next is UShr) && !next_spaced {
        false
    } else if (prev is Gt || prev is Shr || prev is UShr) && !prev_spaced {
        // A parameter list attaches tightly to a generic closer.
        !(next is LParen)
    } else if next is LParen {
        // Call position; everything else is followed by a space.
        !(prev is Ident || prev is RParen || prev is RBracket || prev is RBrace || prev is Question
            || prev is Panic || prev is At)
    } else {
        true
    }
}

/// Whether two adjacent rendered tokens are separated by a space.
pub fn spaced_apart(prev: &TokenKind, prev_spaced: bool, next: &TokenKind, next_spaced: bool) -> (r:
    bool)
    ensures
        r == space_between(prev@, prev_spaced, next@, next_spaced),
{
    if matches!(
        next,
        TokenKind::Comma
            | TokenKind::RParen
            | TokenKind::RBracket
            | TokenKind::Question
            | TokenKind::Dot
            | TokenKind::ColonColon
            | TokenKind::Colon
    ) {
        return false;
    }
    if matches!(
        prev,
        TokenKind::LParen
            | TokenKind::LBracket
            | TokenKind::Dot
            | TokenKind::ColonColon
            | TokenKind::Bang
            | TokenKind::Tilde
    ) {
        return false;
    }
    if matches!(prev, TokenKind::Lt) && !prev_spaced {
        return false;
    }
    if matches!(next, TokenKind::Lt | TokenKind::Gt | TokenKind::Shr | TokenKind::UShr)
        && !next_spaced {
        return false;
    }
    if matches!(prev, TokenKind::Gt | TokenKind::Shr | TokenKind::UShr) && !prev_spaced {
        return !matches!(next, TokenKind::LParen);
    }
    if matches!(next, TokenKind::LParen) {
        return !matches!(
            prev,
            TokenKind::Ident(_)
                | TokenKind::RParen
                | TokenKind::RBracket
                | TokenKind::RBrace
                | TokenKind::Question
                | TokenKind::Panic
                | TokenKind::At(_)
        );
    }
    true
}

/// The kind of the opening token of a group.
pub open spec fn open_kind(kind: GroupKind) -> Kind {
    match kind {
        GroupKind::Paren => Kind::LParen,
        GroupKind::Bracket => Kind::LBracket,
        GroupKind::Brace => Kind::LBrace,
    }
}

/// The token kind an atom presents to its left neighbour for spacing.
pub open spec fn lead_kind(a: AtomT) -> Kind {
    match a {
        AtomT::Leaf(leaf) => leaf.kind,
        AtomT::Group(group) => open_kind(group.kind),
        AtomT::Block(_) => Kind::LBrace,
    }
}

/// The token kind an atom presents to its right neighbour for spacing.
pub open spec fn tail_kind(a: AtomT) -> Kind {
    match a {
        AtomT::Leaf(leaf) => leaf.kind,
        AtomT::Group(group) => close_kind(group.kind),
        AtomT::Block(_) => Kind::RBrace,
    }
}

/// Whether an atom is an operator that could have been a generic bracket.
pub open spec fn is_spaced(a: AtomT) -> bool {
    a is Leaf && a->Leaf_0.spaced
}

/// Whether the last of the atoms is separated from the one before it.
pub open spec fn gap(s: Seq<AtomT>) -> bool {
    s.len() >= 2 && space_between(
        tail_kind(s[s.len() - 2]),
        is_spaced(s[s.len() - 2]),
        lead_kind(s.last()),
        is_spaced(s.last()),
    )
}

/// The text up to the last of the atoms, with the space before it.
pub open spec fn spaced(out: Seq<char>, s: Seq<AtomT>) -> Seq<char> {
    if gap(s) {
        out.push(' ')
    } else {
        out
    }
}

/// The one-line rendering of atoms, if there is one.
pub open spec fn flat_atoms(s: Seq<AtomT>) -> Option<Seq<char>>
    decreases s,
{
    if s.len() == 0 {
        Some(Seq::empty())
    } else {
        match (flat_atoms(s.drop_last()), flat_atom(s.last())) {
            (Some(before), Some(text)) => Some(spaced(before, s) + text),
            _ => None,
        }
    }
}

/// The one-line rendering of an atom, if there is one.
pub open spec fn flat_atom(a: AtomT) -> Option<Seq<char>>
    decreases a,
{
    match a {
        AtomT::Leaf(leaf) => Some(leaf.text),
        AtomT::Group(group) => flat_group(group),
        AtomT::Block(block) => flat_block(block),
    }
}

/// The elements of a group on one line, if none has a comment or a multi-line
/// block.
pub open spec fn flat_elements(s: Seq<ElementT>) -> Option<Seq<char>>
    decreases s,
{
    if s.len() == 0 {
        Some(Seq::empty())
    } else if s.last().leading.len() > 0 || s.last().trailing.len() > 0 {
        None
    } else {
        match (flat_elements(s.drop_last()), flat_atoms(s.last().atoms)) {
            (Some(before), Some(text)) => Some(
                if s.len() == 1 {
                    before + text
                } else {
                    before + ", "@ + text
                },
            ),
            _ => None,
        }
    }
}

/// The one-line rendering of a group, or `None` when it must break (it contains
/// a comment or a multi-line block).
pub open spec fn flat_group(g: GroupT) -> Option<Seq<char>>
    decreases g,
{
    if g.dangling.len() > 0 {
        None
    } else {
        match flat_elements(g.elements) {
            Some(inner) => Some(
                match g.kind {
                    GroupKind::Paren => "("@ + inner + ")"@,
                    GroupKind::Bracket => "["@ + inner + "]"@,
                    GroupKind::Brace => if inner.len() == 0 {
                        "{}"@
                    } else {
                        "{ "@ + inner + " }"@
                    },
                },
            ),
            None => None,
        }
    }
}

/// The one-line rendering of a block, or `None` when it must stay multi-line or
/// contains a comment.
pub open spec fn flat_block(b: BlockT) -> Option<Seq<char>>
    decreases b,
{
    if b.multi_line {
        None
    } else if b.lines.len() == 0 {
        Some("{}"@)
    } else if b.lines.len() == 1 && b.lines[0].trailing.len() == 0 && b.lines[0].atoms.len() > 0 {
        match flat_atoms(b.lines[0].atoms) {
            Some(inner) => Some("{ "@ + inner + " }"@),
            None => None,
        }
    } else {
        None
    }
}

/// Whether an atom can be rendered on one line and in several.
pub open spec fn breakable(a: AtomT) -> bool {
    !(a is Leaf) && flat_atom(a) is Some
}

/// Whether the last of the atoms is a block that can be broken.
pub open spec fn ends_with_body(s: Seq<AtomT>) -> bool {
    s.len() > 0 && s.last() is Block && breakable(s.last())
}

/// The atoms that can be broken, from left to right, without a trailing body
/// block at index `body`.
pub open spec fn inner_breaks(s: Seq<AtomT>, body: int) -> Seq<int>
    decreases s.len(),
{
    if s.len() == 0 {
        Seq::empty()
    } else {
        let before = inner_breaks(s.drop_last(), body);
        if breakable(s.last()) && s.len() - 1 != body {
            before.push(s.len() - 1)
        } else {
            before
        }
    }
}

/// The order in which a line's atoms break: the trailing body block first, then
/// the remaining groups left to right.
pub open spec fn break_order(s: Seq<AtomT>) -> Seq<int> {
    if ends_with_body(s) {
        seq![s.len() - 1] + inner_breaks(s, s.len() - 1)
    } else {
        inner_breaks(s, -1)
    }
}

/// The indentation of what stands in a bracket.
pub open spec fn deeper(pad: Seq<char>) -> Seq<char> {
    pad + "    "@
}

/// Renders atoms with the first `cut` entries of the break order broken (plus
/// everything that cannot render flat), trying larger ones until every line
/// fits or everything breakable is broken.
pub open spec fn fitted(s: Seq<AtomT>, pad: Seq<char>, cut: nat) -> Seq<char>
    decreases s, 2nat, break_order(s).len() - cut,
{
    let order = break_order(s);
    if cut >= order.len() {
        rendered(s, pad, order)
    } else {
        let text = rendered(s, pad, order.take(cut as int));
        if fitting(text) {
            text
        } else {
            fitted(s, pad, cut + 1)
        }
    }
}

/// Renders atoms with those at the indices in `broken` broken, after the
/// indentation.
pub open spec fn rendered(s: Seq<AtomT>, pad: Seq<char>, broken: Seq<int>) -> Seq<char>
    decreases s, 1nat, 0int,
{
    if s.len() == 0 {
        pad
    } else {
        spaced(rendered(s.drop_last(), pad, broken), s) + atom_text(
            s.last(),
            pad,
            broken.contains(s.len() - 1),
        )
    }
}

/// Renders one atom.
pub open spec fn atom_text(a: AtomT, pad: Seq<char>, broken: bool) -> Seq<char>
    decreases a, 0nat, 1int,
{
    match flat_atom(a) {
        Some(text) => if broken {
            broken_text(a, pad)
        } else {
            text
        },
        None => broken_text(a, pad),
    }
}

/// Renders one atom over several lines.
pub open spec fn broken_text(a: AtomT, pad: Seq<char>) -> Seq<char>
    decreases a, 0nat, 0int,
{
    match a {
        AtomT::Leaf(leaf) => leaf.text,
        AtomT::Group(group) => group_broken(group, pad),
        AtomT::Block(block) => block_broken(block, pad),
    }
}

/// Comments on lines of their own.
pub open spec fn remarks_above(out: Seq<char>, s: Seq<Seq<char>>, pad: Seq<char>) -> Seq<char>
    decreases s.len(),
{
    if s.len() == 0 {
        out
    } else {
        remarks_above(out, s.drop_last(), pad).push('\n') + pad + s.last()
    }
}

/// Comments at the end of a line.
pub open spec fn remarks_after(out: Seq<char>, s: Seq<Seq<char>>) -> Seq<char>
    decreases s.len(),
{
    if s.len() == 0 {
        out
    } else {
        remarks_after(out, s.drop_last()).push(' ') + s.last()
    }
}

/// One element of a broken group, on lines of its own.
pub open spec fn element_text(out: Seq<char>, e: ElementT, pad: Seq<char>) -> Seq<char>
    decreases e, 0nat, 0int,
{
    remarks_after(
        (remarks_above(out, e.leading, pad).push('\n') + fitted(e.atoms, pad, 0)).push(','),
        e.trailing,
    )
}

/// The elements of a broken group.
pub open spec fn elements_text(out: Seq<char>, s: Seq<ElementT>, pad: Seq<char>) -> Seq<char>
    decreases s, 0nat, 0int,
{
    if s.len() == 0 {
        out
    } else {
        element_text(elements_text(out, s.drop_last(), pad), s.last(), pad)
    }
}

/// The opening bracket of a group.
pub open spec fn open_char(kind: GroupKind) -> char {
    match kind {
        GroupKind::Paren => '(',
        GroupKind::Bracket => '[',
        GroupKind::Brace => '{',
    }
}

/// The closing bracket of a group.
pub open spec fn close_char(kind: GroupKind) -> char {
    match kind {
        GroupKind::Paren => ')',
        GroupKind::Bracket => ']',
        GroupKind::Brace => '}',
    }
}

/// A group over several lines: one element per line with a trailing comma.
pub open spec fn group_broken(g: GroupT, pad: Seq<char>) -> Seq<char>
    decreases g, 0nat, 0int,
{
    let inner = deeper(pad);
    let out = elements_text(Seq::empty().push(open_char(g.kind)), g.elements, inner);
    (remarks_above(out, g.dangling, inner).push('\n') + pad).push(close_char(g.kind))
}

/// A block over several lines.
pub open spec fn block_broken(b: BlockT, pad: Seq<char>) -> Seq<char>
    decreases b, 0nat, 0int,
{
    if b.lines.len() == 0 {
        "{}"@
    } else {
        (block_lines("{"@, b.lines, deeper(pad)).push('\n') + pad).push('}')
    }
}

/// The lines of a block, each after a newline.
pub open spec fn block_lines(out: Seq<char>, s: Seq<LineT>, pad: Seq<char>) -> Seq<char>
    decreases s, 0nat, 0int,
{
    if s.len() == 0 {
        out
    } else {
        let before = block_lines(out, s.drop_last(), pad);
        let ended = if s.len() > 1 && s.last().blank_before {
            before.push('\n')
        } else {
            before
        };
        ended.push('\n') + line_text(s.last(), pad)
    }
}

/// Comments that are a line of their own.
pub open spec fn own_remarks(s: Seq<Seq<char>>, pad: Seq<char>) -> Seq<char>
    decreases s.len(),
{
    if s.len() == 0 {
        pad
    } else if s.len() == 1 {
        own_remarks(s.drop_last(), pad) + s.last()
    } else {
        own_remarks(s.drop_last(), pad).push(' ') + s.last()
    }
}

/// One line (which may span several output lines once its groups and blocks
/// break), with its indentation.
pub open spec fn line_text(l: LineT, pad: Seq<char>) -> Seq<char>
    decreases l, 0nat, 0int,
{
    if l.atoms.len() == 0 {
        own_remarks(l.trailing, pad)
    } else {
        remarks_after(fitted(l.atoms, pad, 0), l.trailing)
    }
}

/// The lines of a file.
pub open spec fn program_lines(s: Seq<LineT>) -> Seq<char>
    decreases s.len(),
{
    if s.len() == 0 {
        Seq::empty()
    } else if s.len() == 1 {
        program_lines(s.drop_last()) + line_text(s.last(), Seq::empty())
    } else {
        let before = program_lines(s.drop_last()).push('\n');
        let ended = if s.last().blank_before {
            before.push('\n')
        } else {
            before
        };
        ended + line_text(s.last(), Seq::empty())
    }
}

/// The rendering of a file: without white space at the end of a line, and
/// ending with exactly one newline; an empty file stays empty.
pub open spec fn program_text(s: Seq<LineT>) -> Seq<char> {
    cleaned(program_lines(s))
}

fn lead_of(a: &Atom) -> (r: TokenKind)
    ensures
        r@ == lead_kind(a@),
{
    match a {
        Atom::Leaf(leaf) => leaf.kind.copy(),
        Atom::Group(group) => match group.kind {
            GroupKind::Paren => TokenKind::LParen,
            GroupKind::Bracket => TokenKind::LBracket,
            GroupKind::Brace => TokenKind::LBrace,
        },
        Atom::Block(_) => TokenKind::LBrace,
    }
}

fn tail_of(a: &Atom) -> (r: TokenKind)
    ensures
        r@ == tail_kind(a@),
{
    match a {
        Atom::Leaf(leaf) => leaf.kind.copy(),
        Atom::Group(group) => match group.kind {
            GroupKind::Paren => TokenKind::RParen,
            GroupKind::Bracket => TokenKind::RBracket,
            GroupKind::Brace => TokenKind::RBrace,
        },
        Atom::Block(_) => TokenKind::RBrace,
    }
}

fn operator(a: &Atom) -> (r: bool)
    ensures
        r == is_spaced(a@),
{
    match a {
        Atom::Leaf(leaf) => leaf.spaced,
        _ => false,
    }
}

/// Adds the space before atom `i`, if there is one.
fn push_gap(out: &mut String, s: &Vec<Atom>, i: usize)
    requires
        i < s@.len(),
    ensures
        final(out)@ == spaced(old(out)@, atoms(s@).take(i + 1)),
{
    let ghost seen = atoms(s@).take(i + 1);
    assert(seen.last() == s@[i as int]@);
    if i > 0 {
        assert(seen[seen.len() - 2] == s@[i - 1]@);
        if spaced_apart(&tail_of(&s[i - 1]), operator(&s[i - 1]), &lead_of(&s[i]), operator(&s[i])) {
            out.push(' ');
        }
    }
}

fn flat_list(s: &Vec<Atom>) -> (r: Option<String>)
    ensures
        match r {
            Some(text) => flat_atoms(atoms(s@)) == Some(text@),
            None => flat_atoms(atoms(s@)) is None,
        },
    decreases s@,
{
    let ghost all = atoms(s@);
    let mut out = String::new();
    let mut i: usize = 0;
    assert(all.take(0).len() == 0);
    assert(out@ =~= Seq::<char>::empty());
    while i < s.len()
        invariant
            i <= s.len(),
            all == atoms(s@),
            flat_atoms(all.take(i as int)) == Some(out@),
        decreases s.len() - i,
    {
        proof {
            assert(all.take(i + 1).drop_last() =~= all.take(i as int));
            assert(all.take(i + 1).last() == s@[i as int]@);
        }
        match flat_one(&s[i]) {
            Some(text) => {
                push_gap(&mut out, s, i);
                out.push_str(text.as_str());
            },
            None => {
                proof {
                    lemma_not_flat(all, i + 1);
                }
                return None;
            },
        }
        i += 1;
    }
    assert(all.take(all.len() as int) =~= all);
    Some(out)
}

proof fn lemma_not_flat(s: Seq<AtomT>, k: int)
    requires
        0 <= k <= s.len(),
        flat_atoms(s.take(k)) is None,
    ensures
        flat_atoms(s) is None,
    decreases s.len() - k,
{
    if k == s.len() {
        assert(s.take(k) =~= s);
    } else {
        assert(s.take(k + 1).drop_last() =~= s.take(k));
        lemma_not_flat(s, k + 1);
    }
}

fn flat_one(a: &Atom) -> (r: Option<String>)
    ensures
        match r {
            Some(text) => flat_atom(a@) == Some(text@),
            None => flat_atom(a@) is None,
        },
    decreases a,
{
    match a {
        Atom::Leaf(leaf) => Some(leaf.text.clone()),
        Atom::Group(group) => flat_of_group(group),
        Atom::Block(block) => flat_of_block(block),
    }
}

proof fn lemma_not_flat_elements(s: Seq<ElementT>, k: int)
    requires
        0 <= k <= s.len(),
        flat_elements(s.take(k)) is None,
    ensures
        flat_elements(s) is None,
    decreases s.len() - k,
{
    if k == s.len() {
        assert(s.take(k) =~= s);
    } else {
        assert(s.take(k + 1).drop_last() =~= s.take(k));
        lemma_not_flat_elements(s, k + 1);
    }
}

fn flat_of_elements(s: &Vec<Element>) -> (r: Option<String>)
    ensures
        match r {
            Some(text) => flat_elements(elements(s@)) == Some(text@),
            None => flat_elements(elements(s@)) is None,
        },
    decreases s@,
{
    let ghost all = elements(s@);
    let mut out = String::new();
    let mut i: usize = 0;
    assert(all.take(0).len() == 0);
    assert(out@ =~= Seq::<char>::empty());
    while i < s.len()
        invariant
            i <= s.len(),
            all == elements(s@),
            flat_elements(all.take(i as int)) == Some(out@),
        decreases s.len() - i,
    {
        proof {
            assert(all.take(i + 1).drop_last() =~= all.take(i as int));
            assert(all.take(i + 1).last() == s@[i as int]@);
        }
        if s[i].leading.len() > 0 || s[i].trailing.len() > 0 {
            proof {
                lemma_not_flat_elements(all, i + 1);
            }
            return None;
        }
        match flat_list(&s[i].atoms) {
            Some(text) => {
                if i > 0 {
                    out.push_str(", ");
                }
                out.push_str(text.as_str());
            },
            None => {
                proof {
                    lemma_not_flat_elements(all, i + 1);
                }
                return None;
            },
        }
        i += 1;
    }
    assert(all.take(all.len() as int) =~= all);
    Some(out)
}

fn flat_of_group(g: &Group) -> (r: Option<String>)
    ensures
        match r {
            Some(text) => flat_group(g@) == Some(text@),
            None => flat_group(g@) is None,
        },
    decreases g,
{
    if g.dangling.len() > 0 {
        return None;
    }
    match flat_of_elements(&g.elements) {
        Some(inner) => Some(
            match g.kind {
                GroupKind::Paren => wrapped("(", inner.as_str(), ")"),
                GroupKind::Bracket => wrapped("[", inner.as_str(), "]"),
                GroupKind::Brace => {
                    if crate::strings::no_text(inner.as_str()) {
                        owned("{}")
                    } else {
                        wrapped("{ ", inner.as_str(), " }")
                    }
                },
            },
        ),
        None => None,
    }
}

fn wrapped(open: &str, inner: &str, close: &str) -> (r: String)
    ensures
        r@ == open@ + inner@ + close@,
{
    let mut out = owned(open);
    out.push_str(inner);
    out.push_str(close);
    out
}

fn flat_of_block(b: &BlockNode) -> (r: Option<String>)
    ensures
        match r {
            Some(text) => flat_block(b@) == Some(text@),
            None => flat_block(b@) is None,
        },
    decreases b,
{
    let ghost all = lines(b.lines@);
    assert(all.len() == b.lines@.len());
    if b.multi_line {
        return None;
    }
    if b.lines.len() == 0 {
        return Some(owned("{}"));
    }
    assert(all[0] == b.lines@[0]@);
    assert(atoms(b.lines@[0].atoms@).len() == b.lines@[0].atoms@.len());
    if b.lines.len() == 1 && b.lines[0].trailing.len() == 0 && b.lines[0].atoms.len() > 0 {
        match flat_list(&b.lines[0].atoms) {
            Some(inner) => Some(wrapped("{ ", inner.as_str(), " }")),
            None => None,
        }
    } else {
        None
    }
}

fn can_break(a: &Atom) -> (r: bool)
    ensures
        r == breakable(a@),
{
    match a {
        Atom::Leaf(_) => false,
        _ => flat_one(a).is_some(),
    }
}

/// What a list of indices says.
pub open spec fn indices(s: Seq<usize>) -> Seq<int> {
    s.map_values(|i: usize| i as int)
}

/// The order in which the atoms of a line break.
fn order_of(s: &Vec<Atom>) -> (r: Vec<usize>)
    ensures
        indices(r@) == break_order(atoms(s@)),
{
    let ghost all = atoms(s@);
    let mut order: Vec<usize> = Vec::new();
    let mut body: Option<usize> = None;
    if s.len() > 0 {
        assert(all.last() == s@.last()@);
        let last: usize = s.len() - 1;
        if matches!(s[last], Atom::Block(_)) && can_break(&s[last]) {
            body = Some(last);
            order.push(last);
        }
    }
    let ghost at: int = match body {
        Some(b) => b as int,
        None => -1,
    };
    let ghost first = indices(order@);
    let mut i: usize = 0;
    proof {
        assert(all.take(0).len() == 0);
        assert(first + inner_breaks(all.take(0), at) =~= first);
    }
    while i < s.len()
        invariant
            i <= s.len(),
            all == atoms(s@),
            at == match body {
                Some(b) => b as int,
                None => -1,
            },
            indices(order@) == first + inner_breaks(all.take(i as int), at),
        decreases s.len() - i,
    {
        proof {
            assert(all.take(i + 1).drop_last() =~= all.take(i as int));
            assert(all.take(i + 1).last() == s@[i as int]@);
        }
        let is_body = match body {
            Some(b) => b == i,
            None => false,
        };
        if !is_body && can_break(&s[i]) {
            let ghost before = indices(order@);
            order.push(i);
            proof {
                assert(indices(order@) =~= before.push(i as int));
                assert(before.push(i as int) =~= first + inner_breaks(
                    all.take(i as int),
                    at,
                ).push(i as int));
            }
        }
        i += 1;
    }
    proof {
        assert(all.take(all.len() as int) =~= all);
        assert(ends_with_body(all) ==> first =~= seq![all.len() - 1]);
        assert(!ends_with_body(all) ==> first + inner_breaks(all, at) =~= inner_breaks(all, at));
    }
    order
}

fn is_cut(order: &Vec<usize>, cut: usize, i: usize) -> (r: bool)
    requires
        cut <= order@.len(),
    ensures
        r == indices(order@).take(cut as int).contains(i as int),
{
    let ghost taken = indices(order@).take(cut as int);
    let mut k: usize = 0;
    while k < cut
        invariant
            k <= cut <= order@.len(),
            taken == indices(order@).take(cut as int),
            forall|m: int| 0 <= m < k ==> taken[m] != i,
        decreases cut - k,
    {
        if order[k] == i {
            assert(taken[k as int] == i);
            return true;
        }
        assert(taken[k as int] == order@[k as int]);
        k += 1;
    }
    false
}

/// Renders atoms with the first `cut` entries of the break order broken.
fn render(s: &Vec<Atom>, pad: &str, order: &Vec<usize>, cut: usize) -> (r: String)
    requires
        cut <= order@.len(),
    ensures
        r@ == rendered(atoms(s@), pad@, indices(order@).take(cut as int)),
    decreases s@, 1nat,
{
    let ghost all = atoms(s@);
    let ghost broken = indices(order@).take(cut as int);
    let mut out = owned(pad);
    let mut i: usize = 0;
    assert(all.take(0).len() == 0);
    while i < s.len()
        invariant
            i <= s.len(),
            cut <= order@.len(),
            all == atoms(s@),
            broken == indices(order@).take(cut as int),
            out@ == rendered(all.take(i as int), pad@, broken),
        decreases s.len() - i,
    {
        let here = is_cut(order, cut, i);
        push_gap(&mut out, s, i);
        let text = render_atom(&s[i], pad, here);
        out.push_str(text.as_str());
        proof {
            assert(all.take(i + 1).drop_last() =~= all.take(i as int));
            assert(all.take(i + 1).last() == s@[i as int]@);
        }
        i += 1;
    }
    assert(all.take(all.len() as int) =~= all);
    out
}

fn render_atom(a: &Atom, pad: &str, broken: bool) -> (r: String)
    ensures
        r@ == atom_text(a@, pad@, broken),
    decreases a, 2nat,
{
    match flat_one(a) {
        Some(text) => {
            if broken {
                render_broken(a, pad)
            } else {
                text
            }
        },
        None => render_broken(a, pad),
    }
}

fn render_broken(a: &Atom, pad: &str) -> (r: String)
    ensures
        r@ == broken_text(a@, pad@),
    decreases a, 1nat,
{
    match a {
        Atom::Leaf(leaf) => leaf.text.clone(),
        Atom::Group(group) => render_group(group, pad),
        Atom::Block(block) => render_block(block, pad),
    }
}

/// Renders atoms, breaking as few of them as it takes for every line to fit.
fn render_fitted(s: &Vec<Atom>, pad: &str) -> (r: String)
    ensures
        r@ == fitted(atoms(s@), pad@, 0),
    decreases s@, 2nat,
{
    let order = order_of(s);
    let ghost all = atoms(s@);
    let mut cut: usize = 0;
    assert(break_order(all).len() == order@.len());
    while cut < order.len()
        invariant
            cut <= order.len(),
            all == atoms(s@),
            indices(order@) == break_order(all),
            break_order(all).len() == order@.len(),
            fitted(all, pad@, 0) == fitted(all, pad@, cut as nat),
        decreases order.len() - cut,
    {
        let text = render(s, pad, &order, cut);
        if fits(text.as_str()) {
            return text;
        }
        cut += 1;
    }
    assert(indices(order@).take(cut as int) =~= break_order(all));
    render(s, pad, &order, cut)
}

fn push_above(out: &mut String, s: &Vec<String>, pad: &str)
    ensures
        final(out)@ == remarks_above(old(out)@, texts(s@), pad@),
{
    let ghost all = texts(s@);
    let mut i: usize = 0;
    assert(all.take(0).len() == 0);
    while i < s.len()
        invariant
            i <= s.len(),
            all == texts(s@),
            out@ == remarks_above(old(out)@, all.take(i as int), pad@),
        decreases s.len() - i,
    {
        out.push('\n');
        out.push_str(pad);
        out.push_str(s[i].as_str());
        proof {
            assert(all.take(i + 1).drop_last() =~= all.take(i as int));
            assert(all.take(i + 1).last() == s@[i as int]@);
        }
        i += 1;
    }
    assert(all.take(all.len() as int) =~= all);
}

fn push_after(out: &mut String, s: &Vec<String>)
    ensures
        final(out)@ == remarks_after(old(out)@, texts(s@)),
{
    let ghost all = texts(s@);
    let mut i: usize = 0;
    assert(all.take(0).len() == 0);
    while i < s.len()
        invariant
            i <= s.len(),
            all == texts(s@),
            out@ == remarks_after(old(out)@, all.take(i as int)),
        decreases s.len() - i,
    {
        out.push(' ');
        out.push_str(s[i].as_str());
        proof {
            assert(all.take(i + 1).drop_last() =~= all.take(i as int));
            assert(all.take(i + 1).last() == s@[i as int]@);
        }
        i += 1;
    }
    assert(all.take(all.len() as int) =~= all);
}

fn push_element(out: &mut String, e: &Element, pad: &str)
    ensures
        final(out)@ == element_text(old(out)@, e@, pad@),
    decreases e, 1nat,
{
    push_above(out, &e.leading, pad);
    out.push('\n');
    let text = render_fitted(&e.atoms, pad);
    out.push_str(text.as_str());
    out.push(',');
    push_after(out, &e.trailing);
}

fn push_elements(out: &mut String, s: &Vec<Element>, pad: &str)
    ensures
        final(out)@ == elements_text(old(out)@, elements(s@), pad@),
    decreases s@, 0nat,
{
    let ghost all = elements(s@);
    let mut i: usize = 0;
    assert(all.take(0).len() == 0);
    while i < s.len()
        invariant
            i <= s.len(),
            all == elements(s@),
            out@ == elements_text(old(out)@, all.take(i as int), pad@),
        decreases s.len() - i,
    {
        push_element(out, &s[i], pad);
        proof {
            assert(all.take(i + 1).drop_last() =~= all.take(i as int));
            assert(all.take(i + 1).last() == s@[i as int]@);
        }
        i += 1;
    }
    assert(all.take(all.len() as int) =~= all);
}

fn opening(kind: GroupKind) -> (r: char)
    ensures
        r == open_char(kind),
{
    match kind {
        GroupKind::Paren => '(',
        GroupKind::Bracket => '[',
        GroupKind::Brace => '{',
    }
}

fn closing(kind: GroupKind) -> (r: char)
    ensures
        r == close_char(kind),
{
    match kind {
        GroupKind::Paren => ')',
        GroupKind::Bracket => ']',
        GroupKind::Brace => '}',
    }
}

fn indented(pad: &str) -> (r: String)
    ensures
        r@ == deeper(pad@),
{
    let mut inner = owned(pad);
    inner.push_str("    ");
    inner
}

fn render_group(g: &Group, pad: &str) -> (r: String)
    ensures
        r@ == group_broken(g@, pad@),
    decreases g, 0nat,
{
    let inner = indented(pad);
    let mut out = String::new();
    assert(out@ =~= Seq::<char>::empty());
    out.push(opening(g.kind));
    push_elements(&mut out, &g.elements, inner.as_str());
    push_above(&mut out, &g.dangling, inner.as_str());
    out.push('\n');
    out.push_str(pad);
    out.push(closing(g.kind));
    out
}

fn render_block(b: &BlockNode, pad: &str) -> (r: String)
    ensures
        r@ == block_broken(b@, pad@),
    decreases b, 0nat,
{
    assert(lines(b.lines@).len() == b.lines@.len());
    if b.lines.len() == 0 {
        return owned("{}");
    }
    let inner = indented(pad);
    let mut out = owned("{");
    push_lines(&mut out, &b.lines, inner.as_str());
    out.push('\n');
    out.push_str(pad);
    out.push('}');
    out
}

fn push_lines(out: &mut String, s: &Vec<Line>, pad: &str)
    ensures
        final(out)@ == block_lines(old(out)@, lines(s@), pad@),
    decreases s@, 0nat,
{
    let ghost all = lines(s@);
    let mut i: usize = 0;
    assert(all.take(0).len() == 0);
    while i < s.len()
        invariant
            i <= s.len(),
            all == lines(s@),
            out@ == block_lines(old(out)@, all.take(i as int), pad@),
        decreases s.len() - i,
    {
        proof {
            assert(all.take(i + 1).drop_last() =~= all.take(i as int));
            assert(all.take(i + 1).last() == s@[i as int]@);
        }
        if i > 0 && s[i].blank_before {
            out.push('\n');
        }
        out.push('\n');
        let text = render_line(&s[i], pad);
        out.push_str(text.as_str());
        i += 1;
    }
    assert(all.take(all.len() as int) =~= all);
}

fn remark_line(s: &Vec<String>, pad: &str) -> (r: String)
    ensures
        r@ == own_remarks(texts(s@), pad@),
{
    let ghost all = texts(s@);
    let mut out = owned(pad);
    let mut i: usize = 0;
    assert(all.take(0).len() == 0);
    while i < s.len()
        invariant
            i <= s.len(),
            all == texts(s@),
            out@ == own_remarks(all.take(i as int), pad@),
        decreases s.len() - i,
    {
        if i > 0 {
            out.push(' ');
        }
        out.push_str(s[i].as_str());
        proof {
            assert(all.take(i + 1).drop_last() =~= all.take(i as int));
            assert(all.take(i + 1).last() == s@[i as int]@);
        }
        i += 1;
    }
    assert(all.take(all.len() as int) =~= all);
    out
}

fn render_line(l: &Line, pad: &str) -> (r: String)
    ensures
        r@ == line_text(l@, pad@),
    decreases l, 1nat,
{
    assert(atoms(l.atoms@).len() == l.atoms@.len());
    if l.atoms.len() == 0 {
        return remark_line(&l.trailing, pad);
    }
    let mut out = render_fitted(&l.atoms, pad);
    push_after(&mut out, &l.trailing);
    out
}

/// Renders a file.
pub fn render_program(s: &Vec<Line>) -> (r: String)
    ensures
        r@ == program_text(lines(s@)),
{
    let ghost all = lines(s@);
    let mut out = String::new();
    let mut i: usize = 0;
    assert(all.take(0).len() == 0);
    assert(out@ =~= Seq::<char>::empty());
    while i < s.len()
        invariant
            i <= s.len(),
            all == lines(s@),
            out@ == program_lines(all.take(i as int)),
        decreases s.len() - i,
    {
        proof {
            reveal_strlit("");
            assert(""@ =~= Seq::<char>::empty());
            assert(all.take(i + 1).drop_last() =~= all.take(i as int));
            assert(all.take(i + 1).last() == s@[i as int]@);
        }
        if i > 0 {
            out.push('\n');
            if s[i].blank_before {
                out.push('\n');
            }
        }
        let text = render_line(&s[i], "");
        out.push_str(text.as_str());
        i += 1;
    }
    assert(all.take(all.len() as int) =~= all);
    clean(out.as_str())
}

} // verus!
