//! Wherever a binding of a managed program stands, it is released once or moved
//! once: the moves of one binding only drop releases and retains of its own, so
//! that what is settled inside its scope stays settled.

use vstd::prelude::*;

use crate::ir::{ArmNode, Node};
use crate::rc::absent::{absent, absent_all, arm_absent, arms_absent};
use crate::rc::elide::{
    move_retain, move_retain_all, optimize, optimize_arm, optimize_arms, strip, strip_arm,
    strip_arm_jump, strip_arm_jumps, strip_arms, strip_jumps, strip_value_jumps, uses, uses_all,
    uses_arm, uses_arms,
};
use crate::rc::insert::hands_on;
use crate::rc::moves::{
    arm_tally, catch_tally, is_arm_way, is_catch_way, is_way, lemma_optimize_hands_on,
    lemma_strip_hands_on, reads, retains, retains_all, retains_arm, retains_arms, tally,
};

verus! {

/// Whether `b` is `a` without some releases and retains of `y`, lambdas aside.
pub open spec fn thinner(a: Node, b: Node, y: Seq<char>) -> bool
    decreases a,
{
    a == b || match a {
        Node::Release { name, ty, next } => {
            ||| name == y && thinner(*next, b, y)
            ||| b matches Node::Release { name: n, ty: t, next: m } && n == name && t == ty
                && thinner(*next, *m, y)
        },
        Node::Retain { value } => {
            ||| *value matches Node::Var { name, .. } && name == y && b == *value
            ||| b matches Node::Retain { value: v } && thinner(*value, *v, y) && (*value is Release
                ==> *v is Release)
        },
        Node::Let { name, value_ty, value, next } => {
            &&& b matches Node::Let { name: n, value_ty: t, value: v, next: m }
            &&& n == name && t == value_ty
            &&& hands_on(*m, name) == hands_on(*next, name)
            &&& *v is Try == *value is Try
            &&& thinner(*value, *v, y)
            &&& thinner(*next, *m, y)
        },
        Node::Call { callee, args, ret } => {
            &&& b matches Node::Call { callee: c, args: s, ret: r }
            &&& r == ret
            &&& thinner(*callee, *c, y)
            &&& all_thinner(args, s, y)
        },
        Node::Platform { name, ret, throws, args } => {
            &&& b matches Node::Platform { name: name2, ret: ret2, throws: throws2, args: s }
            &&& name2 == name && ret2 == ret && throws2 == throws
            &&& all_thinner(args, s, y)
        },
        Node::Intrinsic { name, ret, args } => {
            &&& b matches Node::Intrinsic { name: name2, ret: ret2, args: s }
            &&& name2 == name && ret2 == ret
            &&& all_thinner(args, s, y)
        },
        Node::TailSelfCall { ty, args } => {
            &&& b matches Node::TailSelfCall { ty: ty2, args: s }
            &&& ty2 == ty
            &&& all_thinner(args, s, y)
        },
        Node::Array { elem_ty, elems } => {
            &&& b matches Node::Array { elem_ty: elem_ty2, elems: s }
            &&& elem_ty2 == elem_ty
            &&& all_thinner(elems, s, y)
        },
        Node::EnumValue { ty, variant, tag, payload } => {
            &&& b matches Node::EnumValue { ty: ty2, variant: variant2, tag: tag2, payload: s }
            &&& ty2 == ty && variant2 == variant && tag2 == tag
            &&& all_thinner(payload, s, y)
        },
        Node::RecordValue { ty, fields } => {
            &&& b matches Node::RecordValue { ty: ty2, fields: s }
            &&& ty2 == ty
            &&& all_thinner(fields, s, y)
        },
        Node::Throw { value } => b matches Node::Throw { value: v } && thinner(*value, *v, y),
        Node::Question { mode, ty, value } => {
            &&& b matches Node::Question { mode: mode2, ty: ty2, value: v }
            &&& mode2 == mode
            &&& ty2 == ty
            &&& thinner(*value, *v, y)
        },
        Node::FieldAccess { index, field_ty, target } => {
            &&& b matches Node::FieldAccess { index: index2, field_ty: field_ty2, target: v }
            &&& index2 == index
            &&& field_ty2 == field_ty
            &&& thinner(*target, *v, y)
        },
        Node::Panic { message } => b matches Node::Panic { message: v } && thinner(*message, *v, y),
        Node::CharFromCode(value) => b matches Node::CharFromCode(v) && thinner(*value, *v, y),
        Node::StringFromChar(value) => b matches Node::StringFromChar(v) && thinner(*value, *v, y),
        Node::Binary { op, ty, left, right } => {
            &&& b matches Node::Binary { op: op2, ty: ty2, left: l, right: r }
            &&& op2 == op && ty2 == ty
            &&& thinner(*left, *l, y)
            &&& thinner(*right, *r, y)
        },
        Node::Concat { left, right } => {
            &&& b matches Node::Concat { left: l, right: r }
            &&& thinner(*left, *l, y)
            &&& thinner(*right, *r, y)
        },
        Node::If { cond, then, els, ty } => {
            &&& b matches Node::If { cond: c, then: t, els: f, ty: ty2 }
            &&& ty2 == ty
            &&& thinner(*cond, *c, y)
            &&& thinner(*then, *t, y)
            &&& thinner(*els, *f, y)
        },
        Node::Match { scrutinee, arms, ty } => {
            &&& b matches Node::Match { scrutinee: v, arms: s, ty: ty2 }
            &&& ty2 == ty
            &&& thinner(*scrutinee, *v, y)
            &&& arms_thinner(arms, s, y)
        },
        Node::Try { body, arms, ty, err_name } => {
            &&& b matches Node::Try { body: v, arms: s, ty: ty2, err_name: e }
            &&& ty2 == ty && e == err_name
            &&& thinner(*body, *v, y)
            &&& arms_thinner(arms, s, y)
        },
        _ => false,
    }
}

/// [`thinner`] of every expression of a list.
pub open spec fn all_thinner(s: Seq<Node>, t: Seq<Node>, y: Seq<char>) -> bool
    decreases s,
{
    s == t || (s.len() > 0 && t.len() > 0 && all_thinner(s.drop_last(), t.drop_last(), y)
        && thinner(s.last(), t.last(), y))
}

/// [`thinner`] of the body of an arm.
pub open spec fn arm_thinner(a: ArmNode, b: ArmNode, y: Seq<char>) -> bool
    decreases a,
{
    a.pattern == b.pattern && a.guard == b.guard && thinner(*a.body, *b.body, y)
}

/// [`thinner`] of the body of every arm of a list.
pub open spec fn arms_thinner(s: Seq<ArmNode>, t: Seq<ArmNode>, y: Seq<char>) -> bool
    decreases s,
{
    s == t || (s.len() > 0 && t.len() > 0 && arms_thinner(s.drop_last(), t.drop_last(), y)
        && arm_thinner(s.last(), t.last(), y))
}

pub proof fn lemma_all_at(s: Seq<Node>, t: Seq<Node>, y: Seq<char>)
    requires
        all_thinner(s, t, y),
    ensures
        s.len() == t.len(),
        forall|i: int| 0 <= i < s.len() ==> thinner(#[trigger] s[i], t[i], y),
    decreases s.len(),
{
    if s != t {
        lemma_all_at(s.drop_last(), t.drop_last(), y);
        assert forall|i: int| 0 <= i < s.len() implies thinner(#[trigger] s[i], t[i], y) by {
            if i < s.len() - 1 {
                assert(s[i] == s.drop_last()[i]);
            }
        }
    }
}

pub proof fn lemma_arms_at(s: Seq<ArmNode>, t: Seq<ArmNode>, y: Seq<char>)
    requires
        arms_thinner(s, t, y),
    ensures
        s.len() == t.len(),
        forall|i: int| 0 <= i < s.len() ==> arm_thinner(#[trigger] s[i], t[i], y),
    decreases s.len(),
{
    if s != t {
        lemma_arms_at(s.drop_last(), t.drop_last(), y);
        assert forall|i: int| 0 <= i < s.len() implies arm_thinner(#[trigger] s[i], t[i], y) by {
            if i < s.len() - 1 {
                assert(s[i] == s.drop_last()[i]);
            }
        }
    }
}

pub proof fn lemma_counts(a: Node, b: Node, y: Seq<char>, x: Seq<char>)
    requires
        thinner(a, b, y),
        x != y,
    ensures
        retains(b, x) == retains(a, x),
        (a is Release ==> b is Release) ==> reads(b, x) == reads(a, x),
    decreases a,
{
    if a == b {
        return;
    }
    match a {
        Node::Release { name, next, .. } => {
            if name == y && thinner(*next, b, y) {
                lemma_counts(*next, b, y, x);
            } else if let Node::Release { next: m, .. } = b {
                lemma_counts(*next, *m, y, x);
            }
        },
        Node::Retain { value } => {
            if let Node::Retain { value: v } = b {
                if thinner(*value, *v, y) {
                    lemma_counts(*value, *v, y, x);
                }
            }
        },
        Node::Let { value, next, .. } => {
            if let Node::Let { value: v, next: m, .. } = b {
                lemma_counts(*value, *v, y, x);
                lemma_counts(*next, *m, y, x);
            }
        },
        Node::Call { callee, args, .. } => {
            if let Node::Call { callee: c, args: s, .. } = b {
                lemma_counts(*callee, *c, y, x);
                lemma_counts_all(args, s, y, x);
            }
        },
        Node::Platform { args, .. } => {
            if let Node::Platform { args: s, .. } = b {
                lemma_counts_all(args, s, y, x);
            }
        },
        Node::Intrinsic { args, .. } => {
            if let Node::Intrinsic { args: s, .. } = b {
                lemma_counts_all(args, s, y, x);
            }
        },
        Node::TailSelfCall { args, .. } => {
            if let Node::TailSelfCall { args: s, .. } = b {
                lemma_counts_all(args, s, y, x);
            }
        },
        Node::Array { elems, .. } => {
            if let Node::Array { elems: s, .. } = b {
                lemma_counts_all(elems, s, y, x);
            }
        },
        Node::EnumValue { payload, .. } => {
            if let Node::EnumValue { payload: s, .. } = b {
                lemma_counts_all(payload, s, y, x);
            }
        },
        Node::RecordValue { fields, .. } => {
            if let Node::RecordValue { fields: s, .. } = b {
                lemma_counts_all(fields, s, y, x);
            }
        },
        Node::Throw { value } => {
            if let Node::Throw { value: v } = b {
                lemma_counts(*value, *v, y, x);
            }
        },
        Node::Question { value, .. } => {
            if let Node::Question { value: v, .. } = b {
                lemma_counts(*value, *v, y, x);
            }
        },
        Node::FieldAccess { target, .. } => {
            if let Node::FieldAccess { target: v, .. } = b {
                lemma_counts(*target, *v, y, x);
            }
        },
        Node::Panic { message } => {
            if let Node::Panic { message: v } = b {
                lemma_counts(*message, *v, y, x);
            }
        },
        Node::CharFromCode(value) => {
            if let Node::CharFromCode(v) = b {
                lemma_counts(*value, *v, y, x);
            }
        },
        Node::StringFromChar(value) => {
            if let Node::StringFromChar(v) = b {
                lemma_counts(*value, *v, y, x);
            }
        },
        Node::Binary { left, right, .. } => {
            if let Node::Binary { left: l, right: r, .. } = b {
                lemma_counts(*left, *l, y, x);
                lemma_counts(*right, *r, y, x);
            }
        },
        Node::Concat { left, right } => {
            if let Node::Concat { left: l, right: r } = b {
                lemma_counts(*left, *l, y, x);
                lemma_counts(*right, *r, y, x);
            }
        },
        Node::If { cond, then, els, .. } => {
            if let Node::If { cond: c, then: t, els: f, .. } = b {
                lemma_counts(*cond, *c, y, x);
                lemma_counts(*then, *t, y, x);
                lemma_counts(*els, *f, y, x);
            }
        },
        Node::Match { scrutinee, arms, .. } => {
            if let Node::Match { scrutinee: v, arms: s, .. } = b {
                lemma_counts(*scrutinee, *v, y, x);
                lemma_counts_arms(arms, s, y, x);
            }
        },
        Node::Try { body, arms, .. } => {
            if let Node::Try { body: v, arms: s, .. } = b {
                lemma_counts(*body, *v, y, x);
                lemma_counts_arms(arms, s, y, x);
            }
        },
        _ => {},
    }
}

proof fn lemma_counts_all(s: Seq<Node>, t: Seq<Node>, y: Seq<char>, x: Seq<char>)
    requires
        all_thinner(s, t, y),
        x != y,
    ensures
        retains_all(t, x) == retains_all(s, x),
    decreases s,
{
    if s != t {
        lemma_counts_all(s.drop_last(), t.drop_last(), y, x);
        lemma_counts(s.last(), t.last(), y, x);
    }
}

proof fn lemma_counts_arm(a: ArmNode, b: ArmNode, y: Seq<char>, x: Seq<char>)
    requires
        arm_thinner(a, b, y),
        x != y,
    ensures
        retains_arm(b, x) == retains_arm(a, x),
    decreases a,
{
    lemma_counts(*a.body, *b.body, y, x);
}

proof fn lemma_counts_arms(s: Seq<ArmNode>, t: Seq<ArmNode>, y: Seq<char>, x: Seq<char>)
    requires
        arms_thinner(s, t, y),
        x != y,
    ensures
        retains_arms(t, x) == retains_arms(s, x),
    decreases s,
{
    if s != t {
        lemma_counts_arms(s.drop_last(), t.drop_last(), y, x);
        lemma_counts_arm(s.last(), t.last(), y, x);
    }
}

pub proof fn lemma_uses(a: Node, b: Node, y: Seq<char>, x: Seq<char>)
    requires
        thinner(a, b, y),
    ensures
        uses(b, x) == uses(a, x),
    decreases a,
{
    if a == b {
        return;
    }
    match a {
        Node::Release { name, next, .. } => {
            if name == y && thinner(*next, b, y) {
                lemma_uses(*next, b, y, x);
            } else if let Node::Release { next: m, .. } = b {
                lemma_uses(*next, *m, y, x);
            }
        },
        Node::Retain { value } => {
            if let Node::Retain { value: v } = b {
                if thinner(*value, *v, y) {
                    lemma_uses(*value, *v, y, x);
                }
            }
        },
        Node::Let { value, next, .. } => {
            if let Node::Let { value: v, next: m, .. } = b {
                lemma_uses(*value, *v, y, x);
                lemma_uses(*next, *m, y, x);
            }
        },
        Node::Call { callee, args, .. } => {
            if let Node::Call { callee: c, args: s, .. } = b {
                lemma_uses(*callee, *c, y, x);
                lemma_uses_all(args, s, y, x);
            }
        },
        Node::Platform { args, .. } => {
            if let Node::Platform { args: s, .. } = b {
                lemma_uses_all(args, s, y, x);
            }
        },
        Node::Intrinsic { args, .. } => {
            if let Node::Intrinsic { args: s, .. } = b {
                lemma_uses_all(args, s, y, x);
            }
        },
        Node::TailSelfCall { args, .. } => {
            if let Node::TailSelfCall { args: s, .. } = b {
                lemma_uses_all(args, s, y, x);
            }
        },
        Node::Array { elems, .. } => {
            if let Node::Array { elems: s, .. } = b {
                lemma_uses_all(elems, s, y, x);
            }
        },
        Node::EnumValue { payload, .. } => {
            if let Node::EnumValue { payload: s, .. } = b {
                lemma_uses_all(payload, s, y, x);
            }
        },
        Node::RecordValue { fields, .. } => {
            if let Node::RecordValue { fields: s, .. } = b {
                lemma_uses_all(fields, s, y, x);
            }
        },
        Node::Throw { value } => {
            if let Node::Throw { value: v } = b {
                lemma_uses(*value, *v, y, x);
            }
        },
        Node::Question { value, .. } => {
            if let Node::Question { value: v, .. } = b {
                lemma_uses(*value, *v, y, x);
            }
        },
        Node::FieldAccess { target, .. } => {
            if let Node::FieldAccess { target: v, .. } = b {
                lemma_uses(*target, *v, y, x);
            }
        },
        Node::Panic { message } => {
            if let Node::Panic { message: v } = b {
                lemma_uses(*message, *v, y, x);
            }
        },
        Node::CharFromCode(value) => {
            if let Node::CharFromCode(v) = b {
                lemma_uses(*value, *v, y, x);
            }
        },
        Node::StringFromChar(value) => {
            if let Node::StringFromChar(v) = b {
                lemma_uses(*value, *v, y, x);
            }
        },
        Node::Binary { left, right, .. } => {
            if let Node::Binary { left: l, right: r, .. } = b {
                lemma_uses(*left, *l, y, x);
                lemma_uses(*right, *r, y, x);
            }
        },
        Node::Concat { left, right } => {
            if let Node::Concat { left: l, right: r } = b {
                lemma_uses(*left, *l, y, x);
                lemma_uses(*right, *r, y, x);
            }
        },
        Node::If { cond, then, els, .. } => {
            if let Node::If { cond: c, then: t, els: f, .. } = b {
                lemma_uses(*cond, *c, y, x);
                lemma_uses(*then, *t, y, x);
                lemma_uses(*els, *f, y, x);
            }
        },
        Node::Match { scrutinee, arms, .. } => {
            if let Node::Match { scrutinee: v, arms: s, .. } = b {
                lemma_uses(*scrutinee, *v, y, x);
                lemma_uses_arms(arms, s, y, x);
            }
        },
        Node::Try { body, arms, .. } => {
            if let Node::Try { body: v, arms: s, .. } = b {
                lemma_uses(*body, *v, y, x);
                lemma_uses_arms(arms, s, y, x);
            }
        },
        _ => {},
    }
}

proof fn lemma_uses_all(s: Seq<Node>, t: Seq<Node>, y: Seq<char>, x: Seq<char>)
    requires
        all_thinner(s, t, y),
    ensures
        uses_all(t, x) == uses_all(s, x),
    decreases s,
{
    if s != t {
        lemma_uses_all(s.drop_last(), t.drop_last(), y, x);
        lemma_uses(s.last(), t.last(), y, x);
    }
}

proof fn lemma_uses_arm(a: ArmNode, b: ArmNode, y: Seq<char>, x: Seq<char>)
    requires
        arm_thinner(a, b, y),
    ensures
        uses_arm(b, x) == uses_arm(a, x),
    decreases a,
{
    lemma_uses(*a.body, *b.body, y, x);
}

proof fn lemma_uses_arms(s: Seq<ArmNode>, t: Seq<ArmNode>, y: Seq<char>, x: Seq<char>)
    requires
        arms_thinner(s, t, y),
    ensures
        uses_arms(t, x) == uses_arms(s, x),
    decreases s,
{
    if s != t {
        lemma_uses_arms(s.drop_last(), t.drop_last(), y, x);
        lemma_uses_arm(s.last(), t.last(), y, x);
    }
}

pub proof fn lemma_still_absent(a: Node, b: Node, y: Seq<char>, x: Seq<char>)
    requires
        thinner(a, b, y),
        absent(a, x),
    ensures
        absent(b, x),
    decreases a,
{
    if a == b {
        return;
    }
    match a {
        Node::Release { name, next, .. } => {
            if name == y && thinner(*next, b, y) {
                lemma_still_absent(*next, b, y, x);
            } else if let Node::Release { next: m, .. } = b {
                lemma_still_absent(*next, *m, y, x);
            }
        },
        Node::Retain { value } => {
            if let Node::Retain { value: v } = b {
                if thinner(*value, *v, y) {
                    lemma_still_absent(*value, *v, y, x);
                }
            }
        },
        Node::Let { value, next, .. } => {
            if let Node::Let { value: v, next: m, .. } = b {
                lemma_still_absent(*value, *v, y, x);
                lemma_still_absent(*next, *m, y, x);
            }
        },
        Node::Call { callee, args, .. } => {
            if let Node::Call { callee: c, args: s, .. } = b {
                lemma_still_absent(*callee, *c, y, x);
                lemma_still_absent_all(args, s, y, x);
            }
        },
        Node::Platform { args, .. } => {
            if let Node::Platform { args: s, .. } = b {
                lemma_still_absent_all(args, s, y, x);
            }
        },
        Node::Intrinsic { args, .. } => {
            if let Node::Intrinsic { args: s, .. } = b {
                lemma_still_absent_all(args, s, y, x);
            }
        },
        Node::TailSelfCall { args, .. } => {
            if let Node::TailSelfCall { args: s, .. } = b {
                lemma_still_absent_all(args, s, y, x);
            }
        },
        Node::Array { elems, .. } => {
            if let Node::Array { elems: s, .. } = b {
                lemma_still_absent_all(elems, s, y, x);
            }
        },
        Node::EnumValue { payload, .. } => {
            if let Node::EnumValue { payload: s, .. } = b {
                lemma_still_absent_all(payload, s, y, x);
            }
        },
        Node::RecordValue { fields, .. } => {
            if let Node::RecordValue { fields: s, .. } = b {
                lemma_still_absent_all(fields, s, y, x);
            }
        },
        Node::Throw { value } => {
            if let Node::Throw { value: v } = b {
                lemma_still_absent(*value, *v, y, x);
            }
        },
        Node::Question { value, .. } => {
            if let Node::Question { value: v, .. } = b {
                lemma_still_absent(*value, *v, y, x);
            }
        },
        Node::FieldAccess { target, .. } => {
            if let Node::FieldAccess { target: v, .. } = b {
                lemma_still_absent(*target, *v, y, x);
            }
        },
        Node::Panic { message } => {
            if let Node::Panic { message: v } = b {
                lemma_still_absent(*message, *v, y, x);
            }
        },
        Node::CharFromCode(value) => {
            if let Node::CharFromCode(v) = b {
                lemma_still_absent(*value, *v, y, x);
            }
        },
        Node::StringFromChar(value) => {
            if let Node::StringFromChar(v) = b {
                lemma_still_absent(*value, *v, y, x);
            }
        },
        Node::Binary { left, right, .. } => {
            if let Node::Binary { left: l, right: r, .. } = b {
                lemma_still_absent(*left, *l, y, x);
                lemma_still_absent(*right, *r, y, x);
            }
        },
        Node::Concat { left, right } => {
            if let Node::Concat { left: l, right: r } = b {
                lemma_still_absent(*left, *l, y, x);
                lemma_still_absent(*right, *r, y, x);
            }
        },
        Node::If { cond, then, els, .. } => {
            if let Node::If { cond: c, then: t, els: f, .. } = b {
                lemma_still_absent(*cond, *c, y, x);
                lemma_still_absent(*then, *t, y, x);
                lemma_still_absent(*els, *f, y, x);
            }
        },
        Node::Match { scrutinee, arms, .. } => {
            if let Node::Match { scrutinee: v, arms: s, .. } = b {
                lemma_still_absent(*scrutinee, *v, y, x);
                lemma_still_absent_arms(arms, s, y, x);
            }
        },
        Node::Try { body, arms, .. } => {
            if let Node::Try { body: v, arms: s, .. } = b {
                lemma_still_absent(*body, *v, y, x);
                lemma_still_absent_arms(arms, s, y, x);
            }
        },
        _ => {},
    }
}

proof fn lemma_still_absent_all(s: Seq<Node>, t: Seq<Node>, y: Seq<char>, x: Seq<char>)
    requires
        all_thinner(s, t, y),
        absent_all(s, x),
    ensures
        absent_all(t, x),
    decreases s,
{
    if s != t {
        lemma_still_absent_all(s.drop_last(), t.drop_last(), y, x);
        lemma_still_absent(s.last(), t.last(), y, x);
    }
}

proof fn lemma_still_absent_arm(a: ArmNode, b: ArmNode, y: Seq<char>, x: Seq<char>)
    requires
        arm_thinner(a, b, y),
        arm_absent(a, x),
    ensures
        arm_absent(b, x),
    decreases a,
{
    lemma_still_absent(*a.body, *b.body, y, x);
}

proof fn lemma_still_absent_arms(s: Seq<ArmNode>, t: Seq<ArmNode>, y: Seq<char>, x: Seq<char>)
    requires
        arms_thinner(s, t, y),
        arms_absent(s, x),
    ensures
        arms_absent(t, x),
    decreases s,
{
    if s != t {
        lemma_still_absent_arms(s.drop_last(), t.drop_last(), y, x);
        lemma_still_absent_arm(s.last(), t.last(), y, x);
    }
}


/// The ways through `b`, and what stands on them of any other binding.
pub proof fn lemma_ways(a: Node, b: Node, y: Seq<char>, x: Seq<char>, p: Seq<nat>, jumping: bool)
    requires
        thinner(a, b, y),
        x != y,
        is_way(a, p, jumping),
    ensures
        is_way(b, p, jumping),
        tally(b, x, p) == tally(a, x, p),
    decreases a,
{
    if a == b {
        return;
    }
    lemma_counts(a, b, y, x);
    match a {
        Node::Release { name, next, .. } => {
            if name == y && thinner(*next, b, y) {
                lemma_ways(*next, b, y, x, p, jumping);
            } else if let Node::Release { next: m, .. } = b {
                lemma_ways(*next, *m, y, x, p, jumping);
            }
        },
        Node::Let { name, value, next, .. } => {
            if let Node::Let { value: v, next: m, .. } = b {
                lemma_counts(*value, *v, y, x);
                if hands_on(*next, name) && *value is Try {
                    if p[0] == 0 {
                        lemma_ways(*next, *m, y, x, p.drop_first(), jumping);
                    } else {
                        lemma_value_ways(*value, *v, y, x, p.drop_first());
                    }
                } else {
                    lemma_ways(*next, *m, y, x, p, jumping);
                }
            }
        },
        Node::If { cond, then, els, .. } => {
            if let Node::If { cond: c, then: t, els: f, .. } = b {
                lemma_counts(*cond, *c, y, x);
                if p[0] == 0 {
                    lemma_ways(*then, *t, y, x, p.drop_first(), jumping);
                } else {
                    lemma_ways(*els, *f, y, x, p.drop_first(), jumping);
                }
            }
        },
        Node::Match { scrutinee, arms, .. } => {
            if let Node::Match { scrutinee: v, arms: s, .. } = b {
                lemma_counts(*scrutinee, *v, y, x);
                lemma_arms_at(arms, s, y);
                let i = p[0] as int;
                lemma_arm_ways(arms[i], s[i], y, x, p.drop_first(), jumping);
            }
        },
        Node::Try { body, arms, .. } => {
            if let Node::Try { body: v, arms: s, .. } = b {
                lemma_counts(*body, *v, y, x);
                if p[0] != 0 {
                    lemma_catch_ways(arms, s, y, x, p.drop_first());
                }
            }
        },
        _ => {},
    }
}

proof fn lemma_value_ways(a: Node, b: Node, y: Seq<char>, x: Seq<char>, p: Seq<nat>)
    requires
        thinner(a, b, y),
        x != y,
        b is Try,
        a matches Node::Try { arms, .. } && is_catch_way(arms, p),
    ensures
        a matches Node::Try { body, arms, .. } && b matches Node::Try { body: d, arms: s, .. }
            && is_catch_way(s, p) && catch_tally(s, x, p) == catch_tally(arms, x, p) && retains(
            *d,
            x,
        ) == retains(*body, x),
    decreases a,
{
    if let Node::Try { body, arms, .. } = a {
        if let Node::Try { body: d, arms: s, .. } = b {
            if a != b {
                lemma_counts(*body, *d, y, x);
                lemma_catch_ways(arms, s, y, x, p);
            }
        }
    }
}

proof fn lemma_catch_ways(s: Seq<ArmNode>, t: Seq<ArmNode>, y: Seq<char>, x: Seq<char>, p: Seq<nat>)
    requires
        arms_thinner(s, t, y),
        x != y,
        is_catch_way(s, p),
    ensures
        is_catch_way(t, p),
        catch_tally(t, x, p) == catch_tally(s, x, p),
    decreases s,
{
    lemma_arms_at(s, t, y);
    let i = p[0] as int;
    lemma_arm_ways(s[i], t[i], y, x, p.drop_first(), true);
}

proof fn lemma_arm_ways(a: ArmNode, b: ArmNode, y: Seq<char>, x: Seq<char>, p: Seq<nat>, jumping: bool)
    requires
        arm_thinner(a, b, y),
        x != y,
        is_arm_way(a, p, jumping),
    ensures
        is_arm_way(b, p, jumping),
        arm_tally(b, x, p) == arm_tally(a, x, p),
    decreases a,
{
    lemma_ways(*a.body, *b.body, y, x, p, jumping);
}

proof fn lemma_strip_thins(e: Node, x: Seq<char>)
    ensures
        thinner(e, strip(e, x), x),
    decreases e,
{
    match e {
        Node::Release { next, .. } => {
            lemma_strip_thins(*next, x);
            assert(thinner(*next, *next, x));
        },
        Node::Let { name, value, next, .. } => {
            lemma_value_thins(*value, x);
            lemma_strip_thins(*next, x);
            lemma_strip_hands_on(*next, x, name);
        },
        Node::If { cond, then, els, .. } => {
            assert(thinner(*cond, *cond, x));
            lemma_strip_thins(*then, x);
            lemma_strip_thins(*els, x);
        },
        Node::Match { scrutinee, arms, .. } => {
            assert(thinner(*scrutinee, *scrutinee, x));
            lemma_arms_strip_thins(arms, x);
        },
        _ => {},
    }
}

proof fn lemma_arm_strip_thins(arm: ArmNode, x: Seq<char>)
    ensures
        arm_thinner(arm, strip_arm(arm, x), x),
    decreases arm,
{
    lemma_strip_thins(*arm.body, x);
}

proof fn lemma_arms_strip_thins(s: Seq<ArmNode>, x: Seq<char>)
    ensures
        arms_thinner(s, strip_arms(s, x), x),
    decreases s,
{
    if s.len() > 0 {
        lemma_arms_strip_thins(s.drop_last(), x);
        lemma_arm_strip_thins(s.last(), x);
        assert(strip_arms(s, x).drop_last() =~= strip_arms(s.drop_last(), x));
    } else {
        assert(strip_arms(s, x) =~= s);
    }
}

proof fn lemma_jumps_thin(e: Node, x: Seq<char>)
    ensures
        thinner(e, strip_jumps(e, x), x),
    decreases e,
{
    match e {
        Node::Release { next, .. } => {
            lemma_jumps_thin(*next, x);
            assert(thinner(*next, *next, x));
        },
        Node::Let { name, value, next, .. } => {
            lemma_value_thins(*value, x);
            lemma_jumps_thin(*next, x);
            lemma_strip_hands_on(*next, x, name);
        },
        Node::If { cond, then, els, .. } => {
            assert(thinner(*cond, *cond, x));
            lemma_jumps_thin(*then, x);
            lemma_jumps_thin(*els, x);
        },
        Node::Match { scrutinee, arms, .. } => {
            assert(thinner(*scrutinee, *scrutinee, x));
            lemma_arm_jumps_thin(arms, x);
        },
        Node::Try { body, arms, .. } => {
            assert(thinner(*body, *body, x));
            lemma_arm_jumps_thin(arms, x);
        },
        _ => {},
    }
}

proof fn lemma_value_thins(value: Node, x: Seq<char>)
    ensures
        thinner(value, strip_value_jumps(value, x), x),
        strip_value_jumps(value, x) is Try == value is Try,
    decreases value,
{
    if let Node::Try { body, arms, .. } = value {
        assert(thinner(*body, *body, x));
        lemma_arm_jumps_thin(arms, x);
    }
}

proof fn lemma_arm_jump_thins(arm: ArmNode, x: Seq<char>)
    ensures
        arm_thinner(arm, strip_arm_jump(arm, x), x),
    decreases arm,
{
    lemma_jumps_thin(*arm.body, x);
}

proof fn lemma_arm_jumps_thin(s: Seq<ArmNode>, x: Seq<char>)
    ensures
        arms_thinner(s, strip_arm_jumps(s, x), x),
    decreases s,
{
    if s.len() > 0 {
        lemma_arm_jumps_thin(s.drop_last(), x);
        lemma_arm_jump_thins(s.last(), x);
        assert(strip_arm_jumps(s, x).drop_last() =~= strip_arm_jumps(s.drop_last(), x));
    } else {
        assert(strip_arm_jumps(s, x) =~= s);
    }
}

proof fn lemma_moved_hands_on(e: Node, x: Seq<char>, bound: Seq<char>)
    requires
        bound != x,
    ensures
        move_retain(e, x) matches Some(m) ==> hands_on(m, bound) == hands_on(e, bound)
            && m is Release == e is Release,
    decreases e,
{
    match e {
        Node::Release { next, .. } => lemma_moved_hands_on(*next, x, bound),
        _ => {
            reveal_with_fuel(hands_on, 2);
        },
    }
}

/// A move only drops a retain, where nothing that it passes binds the name.
proof fn lemma_move_thins(e: Node, x: Seq<char>)
    requires
        absent(e, x),
    ensures
        move_retain(e, x) matches Some(m) ==> thinner(e, m, x) && !(m is Try) && !(e is Try),
    decreases e,
{
    match e {
        Node::Retain { value } => {
            lemma_move_thins(*value, x);
            match *value {
                Node::Release { .. } => {},
                _ => {},
            }
        },
        Node::Release { next, .. } => lemma_move_thins(*next, x),
        Node::Let { name, value, next, .. } => {
            lemma_move_thins(*value, x);
            lemma_move_thins(*next, x);
            lemma_moved_hands_on(*next, x, name);
            assert(thinner(*next, *next, x));
            assert(thinner(*value, *value, x));
        },
        Node::Call { callee, args, .. } => {
            lemma_move_thins(*callee, x);
            lemma_move_thins_all(args, x);
            assert(thinner(*callee, *callee, x));
            assert(all_thinner(args, args, x));
        },
        Node::Platform { args, .. } => lemma_move_thins_all(args, x),
        Node::Intrinsic { args, .. } => lemma_move_thins_all(args, x),
        Node::TailSelfCall { args, .. } => lemma_move_thins_all(args, x),
        Node::Array { elems, .. } => lemma_move_thins_all(elems, x),
        Node::EnumValue { payload, .. } => lemma_move_thins_all(payload, x),
        Node::RecordValue { fields, .. } => lemma_move_thins_all(fields, x),
        Node::FieldAccess { target, .. } => lemma_move_thins(*target, x),
        Node::Binary { left, right, .. } => {
            lemma_move_thins(*left, x);
            lemma_move_thins(*right, x);
            assert(thinner(*left, *left, x));
            assert(thinner(*right, *right, x));
        },
        Node::Concat { left, right } => {
            lemma_move_thins(*left, x);
            lemma_move_thins(*right, x);
            assert(thinner(*left, *left, x));
            assert(thinner(*right, *right, x));
        },
        Node::Throw { value } => lemma_move_thins(*value, x),
        Node::Question { value, .. } => lemma_move_thins(*value, x),
        Node::CharFromCode(value) => lemma_move_thins(*value, x),
        Node::StringFromChar(value) => lemma_move_thins(*value, x),
        Node::Panic { message } => lemma_move_thins(*message, x),
        _ => {},
    }
}

proof fn lemma_move_thins_all(s: Seq<Node>, x: Seq<char>)
    requires
        absent_all(s, x),
    ensures
        move_retain_all(s, x) matches Some(t) ==> all_thinner(s, t, x),
    decreases s,
{
    if s.len() > 0 {
        let front = s.drop_last();
        lemma_move_thins_all(front, x);
        lemma_move_thins(s.last(), x);
        assert(thinner(s.last(), s.last(), x));
        assert(all_thinner(front, front, x));
        match move_retain_all(front, x) {
            Some(t) => {
                assert(t.push(s.last()).drop_last() =~= t);
            },
            None => {
                if let Some(e) = move_retain(s.last(), x) {
                    assert(front.push(e).drop_last() =~= front);
                }
            },
        }
    }
}

/// Turning the last use of `x` into a move only drops releases and retains of `x`,
/// where nothing binds `x` again.
pub proof fn moves_only_thin(e: Node, x: Seq<char>)
    requires
        absent(e, x),
    ensures
        thinner(e, optimize(e, x), x),
    decreases e,
{
    match e {
        Node::Release { name, next, .. } => {
            if name != x {
                moves_only_thin(*next, x);
            }
        },
        Node::Let { name, value, next, .. } => {
            assert(thinner(*value, *value, x));
            moves_only_thin(*next, x);
            lemma_optimize_hands_on(*next, x, name);
            lemma_strip_thins(*next, x);
            lemma_strip_hands_on(*next, x, name);
            lemma_move_thins(*value, x);
        },
        Node::If { cond, then, els, .. } => {
            assert(thinner(*cond, *cond, x));
            moves_only_thin(*then, x);
            moves_only_thin(*els, x);
        },
        Node::Match { scrutinee, arms, .. } => {
            assert(thinner(*scrutinee, *scrutinee, x));
            lemma_arms_only_thin(arms, x);
        },
        _ => {},
    }
}

proof fn lemma_arm_only_thins(arm: ArmNode, x: Seq<char>)
    requires
        arm_absent(arm, x),
    ensures
        arm_thinner(arm, optimize_arm(arm, x), x),
    decreases arm,
{
    moves_only_thin(*arm.body, x);
}

proof fn lemma_arms_only_thin(s: Seq<ArmNode>, x: Seq<char>)
    requires
        arms_absent(s, x),
    ensures
        arms_thinner(s, optimize_arms(s, x), x),
    decreases s,
{
    if s.len() > 0 {
        lemma_arms_only_thin(s.drop_last(), x);
        lemma_arm_only_thins(s.last(), x);
        assert(optimize_arms(s, x).drop_last() =~= optimize_arms(s.drop_last(), x));
    } else {
        assert(optimize_arms(s, x) =~= s);
    }
}


} // verus!
