//! The canonical placement of attributes.

use vstd::prelude::*;

use super::tree::{atoms, lines, Atom, AtomT, GroupKind, Line, LineT};
use crate::lexer::TokenKind;
use crate::strings::texts;

verus! {

/// Whether an atom is an attribute.
pub open spec fn is_attribute(a: AtomT) -> bool {
    a is Leaf && a->Leaf_0.kind is At
}

/// Whether an atom is a parenthesized group.
pub open spec fn is_paren(a: AtomT) -> bool {
    a is Group && a->Group_0.kind is Paren
}

/// Whether a line starts with an attribute.
pub open spec fn starts_with_attribute(s: Seq<AtomT>) -> bool {
    s.len() > 0 && is_attribute(s[0])
}

/// How many atoms the attribute at the start of a line takes: its name and its
/// argument group, if it has one.
pub open spec fn attribute_len(s: Seq<AtomT>) -> int {
    if s.len() > 1 && is_paren(s[1]) {
        2
    } else {
        1
    }
}

/// Whether a blank line stays above the next line: none does below an
/// attribute.
pub open spec fn keeps_blank(out: Seq<LineT>, blank_before: bool) -> bool {
    blank_before && !(out.len() > 0 && starts_with_attribute(out.last().atoms))
}

/// Puts the attributes at the start of a line on lines of their own, after
/// `out`. The blank line above, if any, stays above the first attribute; one
/// between an attribute and its declaration, or the next attribute, is removed.
pub open spec fn split_line(out: Seq<LineT>, line: LineT) -> Seq<LineT>
    decreases line.atoms.len(),
{
    let n = attribute_len(line.atoms);
    if starts_with_attribute(line.atoms) && line.atoms.len() > n {
        split_line(
            out.push(
                LineT {
                    blank_before: keeps_blank(out, line.blank_before),
                    atoms: line.atoms.take(n),
                    trailing: Seq::empty(),
                },
            ),
            LineT {
                blank_before: false,
                atoms: line.atoms.skip(n),
                trailing: line.trailing,
            },
        )
    } else {
        out.push(LineT { blank_before: keeps_blank(out, line.blank_before), ..line })
    }
}

/// The lines with each attribute on its own line directly above its
/// declaration.
pub open spec fn normalized(s: Seq<LineT>) -> Seq<LineT>
    decreases s.len(),
{
    if s.len() == 0 {
        Seq::empty()
    } else {
        split_line(normalized(s.drop_last()), s.last())
    }
}

fn attribute_first(s: &Vec<Atom>) -> (r: bool)
    ensures
        r == starts_with_attribute(atoms(s@)),
{
    if s.len() == 0 {
        return false;
    }
    assert(atoms(s@)[0] == s@[0]@);
    match &s[0] {
        Atom::Leaf(leaf) => matches!(leaf.kind, TokenKind::At(_)),
        _ => false,
    }
}

fn attribute_atoms(s: &Vec<Atom>) -> (r: usize)
    ensures
        r == attribute_len(atoms(s@)),
{
    if s.len() > 1 {
        assert(atoms(s@)[1] == s@[1]@);
        match &s[1] {
            Atom::Group(group) => {
                if matches!(group.kind, GroupKind::Paren) {
                    2
                } else {
                    1
                }
            },
            _ => 1,
        }
    } else {
        1
    }
}

fn blank_stays(out: &Vec<Line>, blank_before: bool) -> (r: bool)
    ensures
        r == keeps_blank(lines(out@), blank_before),
{
    assert(lines(out@).len() == out@.len());
    if out.len() == 0 {
        return blank_before;
    }
    assert(lines(out@).last() == out@.last()@);
    blank_before && !attribute_first(&out[out.len() - 1].atoms)
}

fn push_split(out: &mut Vec<Line>, line: Line)
    ensures
        lines(final(out)@) == split_line(lines(old(out)@), line@),
{
    let ghost want = split_line(lines(old(out)@), line@);
    let mut blank_before = line.blank_before;
    let mut rest = line.atoms;
    let trailing = line.trailing;
    loop
        invariant
            want == split_line(
                lines(out@),
                LineT { blank_before, atoms: atoms(rest@), trailing: texts(trailing@) },
            ),
        ensures
            want == split_line(
                lines(out@),
                LineT { blank_before, atoms: atoms(rest@), trailing: texts(trailing@) },
            ),
            !(starts_with_attribute(atoms(rest@)) && atoms(rest@).len() > attribute_len(
                atoms(rest@),
            )),
        decreases rest@.len(),
    {
        assert(atoms(rest@).len() == rest@.len());
        if !attribute_first(&rest) {
            break;
        }
        let n: usize = attribute_atoms(&rest);
        if rest.len() <= n {
            break;
        }
        let ghost all = rest@;
        let ghost before = lines(out@);
        let tail = rest.split_off(n);
        proof {
            assert(atoms(rest@) =~= atoms(all).take(n as int));
            assert(atoms(tail@) =~= atoms(all).skip(n as int));
        }
        let none: Vec<String> = Vec::new();
        assert(texts(none@) =~= Seq::<Seq<char>>::empty());
        let head = Line { blank_before: blank_stays(out, blank_before), atoms: rest, trailing: none };
        out.push(head);
        assert(lines(out@) =~= before.push(head@));
        blank_before = false;
        rest = tail;
    }
    let ghost before = lines(out@);
    let kept = Line { blank_before: blank_stays(out, blank_before), atoms: rest, trailing };
    out.push(kept);
    assert(lines(out@) =~= before.push(kept@));
}

/// Canonicalizes attribute placement at the top level: each attribute goes on
/// its own line directly above its declaration. An inline `@test fn ...` is
/// split, and a blank line between an attribute and the declaration (or the
/// next attribute) is removed. Attributes only parse at the top level, so nested
/// lines need no treatment.
pub fn normalize_attributes(all: Vec<Line>) -> (r: Vec<Line>)
    ensures
        lines(r@) == normalized(lines(all@)),
{
    let ghost views = lines(all@);
    let mut out: Vec<Line> = Vec::new();
    assert(lines(out@) =~= Seq::<LineT>::empty());
    assert(views.take(0).len() == 0);
    for line in iter: all
        invariant
            iter.seq() == all@,
            views == lines(all@),
            lines(out@) == normalized(views.take(iter.index() as int)),
    {
        proof {
            let k = iter.index() as int;
            assert(views.take(k + 1).drop_last() =~= views.take(k));
            assert(views.take(k + 1).last() == line@);
        }
        push_split(&mut out, line);
    }
    assert(views.take(views.len() as int) =~= views);
    out
}

} // verus!
