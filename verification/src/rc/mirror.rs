//! Taking the releases of a binding out again undoes their insertion.

use vstd::prelude::*;

use crate::ir::{node_ty, ArmNode, Node};
use crate::rc::elide::{
    strip, strip_arm, strip_arm_jump, strip_arm_jumps, strip_arms, strip_jumps, strip_value_jumps,
};
use crate::rc::insert::{
    hands_on, is_reorder_safe, release_after, release_arm_jump, release_arm_jumps,
    release_arm_tail, release_arm_tails, release_jumps, release_tails, release_value_jumps,
    temp_name, Rewritten,
};
use crate::rc::rename::next_count;
use crate::types::Ty;

verus! {

/// How many releases of `x` stand anywhere in `e`.
pub open spec fn releases(e: Node, x: Seq<char>) -> nat
    decreases e,
{
    match e {
        Node::Release { name, next, .. } => releases(*next, x) + if name == x {
            1nat
        } else {
            0nat
        },
        Node::Retain { value } => releases(*value, x),
        Node::Let { value, next, .. } => releases(*value, x) + releases(*next, x),
        Node::Fn { body, .. } => releases(*body, x),
        Node::Throw { value } => releases(*value, x),
        Node::Question { value, .. } => releases(*value, x),
        Node::Call { callee, args, .. } => releases(*callee, x) + releases_all(args, x),
        Node::Platform { args, .. } => releases_all(args, x),
        Node::Intrinsic { args, .. } => releases_all(args, x),
        Node::TailSelfCall { args, .. } => releases_all(args, x),
        Node::Array { elems, .. } => releases_all(elems, x),
        Node::EnumValue { payload, .. } => releases_all(payload, x),
        Node::RecordValue { fields, .. } => releases_all(fields, x),
        Node::FieldAccess { target, .. } => releases(*target, x),
        Node::CharFromCode(value) => releases(*value, x),
        Node::StringFromChar(value) => releases(*value, x),
        Node::Binary { left, right, .. } => releases(*left, x) + releases(*right, x),
        Node::Concat { left, right } => releases(*left, x) + releases(*right, x),
        Node::If { cond, then, els, .. } => releases(*cond, x) + releases(*then, x) + releases(
            *els,
            x,
        ),
        Node::Match { scrutinee, arms, .. } => releases(*scrutinee, x) + releases_arms(arms, x),
        Node::Try { body, arms, .. } => releases(*body, x) + releases_arms(arms, x),
        Node::Panic { message } => releases(*message, x),
        Node::Int(_) | Node::Float(_) | Node::Bool(_) | Node::String(_) | Node::Char(_)
        | Node::Unit | Node::Var { .. } | Node::FunctionRef { .. } => 0,
    }
}

/// How many releases of `x` stand in a list of expressions.
pub open spec fn releases_all(s: Seq<Node>, x: Seq<char>) -> nat
    decreases s,
{
    if s.len() == 0 {
        0
    } else {
        releases_all(s.drop_last(), x) + releases(s.last(), x)
    }
}

/// How many releases of `x` stand in an arm.
pub open spec fn releases_arm(arm: ArmNode, x: Seq<char>) -> nat
    decreases arm,
{
    match arm.guard {
        Some(guard) => releases(*guard, x) + releases(*arm.body, x),
        None => releases(*arm.body, x),
    }
}

/// How many releases of `x` stand in a list of arms.
pub open spec fn releases_arms(s: Seq<ArmNode>, x: Seq<char>) -> nat
    decreases s,
{
    if s.len() == 0 {
        0
    } else {
        releases_arms(s.drop_last(), x) + releases_arm(s.last(), x)
    }
}

/// An expression bound to a temporary and read again.
pub open spec fn rebound(n: u64, leaf: Node) -> Rewritten<Node> {
    let name = temp_name(n);
    let ty = node_ty(leaf);
    Rewritten {
        next: next_count(n),
        to: Node::Let {
            name,
            value_ty: ty,
            value: Box::new(leaf),
            next: Box::new(Node::Var { name, ty }),
        },
    }
}

/// `e` with the values that its tails compute bound to temporaries: what inserting
/// releases leaves of an expression, but for the releases.
pub open spec fn tails_bound(n: u64, e: Node) -> Rewritten<Node>
    decreases e,
{
    match e {
        Node::Let { name, value_ty, value, next } => {
            let r = tails_bound(n, *next);
            Rewritten {
                next: r.next,
                to: Node::Let { name, value_ty, value, next: Box::new(r.to) },
            }
        },
        Node::Release { name, ty, next } => {
            let r = tails_bound(n, *next);
            Rewritten { next: r.next, to: Node::Release { name, ty, next: Box::new(r.to) } }
        },
        Node::If { cond, then, els, ty } => {
            let t = tails_bound(n, *then);
            let f = tails_bound(t.next, *els);
            Rewritten {
                next: f.next,
                to: Node::If { cond, then: Box::new(t.to), els: Box::new(f.to), ty },
            }
        },
        Node::Match { scrutinee, arms, ty } => {
            let a = arm_tails_bound(n, arms);
            Rewritten { next: a.next, to: Node::Match { scrutinee, arms: a.to, ty } }
        },
        Node::TailSelfCall { .. } => Rewritten { next: n, to: e },
        Node::Throw { .. } => Rewritten { next: n, to: e },
        _ => if is_reorder_safe(e) {
            Rewritten { next: n, to: e }
        } else {
            rebound(n, e)
        },
    }
}

/// [`tails_bound`] of the body of an arm.
pub open spec fn arm_tail_bound(n: u64, arm: ArmNode) -> Rewritten<ArmNode>
    decreases arm,
{
    let b = tails_bound(n, *arm.body);
    Rewritten {
        next: b.next,
        to: ArmNode { pattern: arm.pattern, guard: arm.guard, body: Box::new(b.to) },
    }
}

/// [`tails_bound`] of the body of every arm.
pub open spec fn arm_tails_bound(n: u64, s: Seq<ArmNode>) -> Rewritten<Seq<ArmNode>>
    decreases s,
{
    if s.len() == 0 {
        Rewritten { next: n, to: Seq::empty() }
    } else {
        let init = arm_tails_bound(n, s.drop_last());
        let last = arm_tail_bound(init.next, s.last());
        Rewritten { next: last.next, to: init.to.push(last.to) }
    }
}

proof fn lemma_nothing_to_strip(e: Node, x: Seq<char>)
    requires
        releases(e, x) == 0,
    ensures
        strip_jumps(e, x) == e,
    decreases e,
{
    match e {
        Node::Release { next, .. } => lemma_nothing_to_strip(*next, x),
        Node::Let { value, next, .. } => {
            lemma_no_value_to_strip(*value, x);
            lemma_nothing_to_strip(*next, x);
        },
        Node::If { then, els, .. } => {
            lemma_nothing_to_strip(*then, x);
            lemma_nothing_to_strip(*els, x);
        },
        Node::Match { arms, .. } => lemma_no_arms_to_strip(arms, x),
        Node::Try { arms, .. } => lemma_no_arms_to_strip(arms, x),
        _ => {},
    }
}

proof fn lemma_no_value_to_strip(value: Node, x: Seq<char>)
    requires
        releases(value, x) == 0,
    ensures
        strip_value_jumps(value, x) == value,
    decreases value,
{
    if let Node::Try { arms, .. } = value {
        lemma_no_arms_to_strip(arms, x);
    }
}

proof fn lemma_no_arm_to_strip(arm: ArmNode, x: Seq<char>)
    requires
        releases_arm(arm, x) == 0,
    ensures
        strip_arm_jump(arm, x) == arm,
    decreases arm,
{
    lemma_nothing_to_strip(*arm.body, x);
}

proof fn lemma_no_arms_to_strip(s: Seq<ArmNode>, x: Seq<char>)
    requires
        releases_arms(s, x) == 0,
    ensures
        strip_arm_jumps(s, x) == s,
    decreases s,
{
    if s.len() > 0 {
        lemma_no_arms_to_strip(s.drop_last(), x);
        lemma_no_arm_to_strip(s.last(), x);
        assert(s.drop_last().push(s.last()) =~= s);
    }
}

/// Taking out the releases before the jumps of a catch arm gives back the arm as
/// it was, `try`s inside it and their catch arms with it.
pub proof fn stripping_undoes_jump_releases(e: Node, x: Seq<char>, ty: Ty)
    requires
        releases(e, x) == 0,
    ensures
        strip_jumps(release_jumps(e, x, ty), x) == e,
    decreases e,
{
    reveal(release_jumps);
    reveal(release_arm_jump);
    reveal(release_arm_jumps);
    match e {
        Node::Release { next, .. } => stripping_undoes_jump_releases(*next, x, ty),
        Node::Let { name, value, next, .. } => {
            stripping_undoes_value_releases(*value, hands_on(*next, name), x, ty);
            stripping_undoes_jump_releases(*next, x, ty);
        },
        Node::If { then, els, .. } => {
            stripping_undoes_jump_releases(*then, x, ty);
            stripping_undoes_jump_releases(*els, x, ty);
        },
        Node::Match { arms, .. } => stripping_undoes_arm_releases(arms, x, ty),
        Node::Try { arms, .. } => stripping_undoes_arm_releases(arms, x, ty),
        _ => {
            reveal_with_fuel(strip_jumps, 2);
        },
    }
}

proof fn stripping_undoes_value_releases(value: Node, handed_on: bool, x: Seq<char>, ty: Ty)
    requires
        releases(value, x) == 0,
    ensures
        strip_value_jumps(release_value_jumps(value, handed_on, x, ty), x) == value,
    decreases value,
{
    reveal(release_jumps);
    reveal(release_arm_jump);
    reveal(release_arm_jumps);
    if let Node::Try { arms, .. } = value {
        stripping_undoes_arm_releases(arms, x, ty);
        lemma_no_arms_to_strip(arms, x);
    }
}

proof fn stripping_undoes_arm_release(arm: ArmNode, x: Seq<char>, ty: Ty)
    requires
        releases_arm(arm, x) == 0,
    ensures
        strip_arm_jump(release_arm_jump(arm, x, ty), x) == arm,
    decreases arm,
{
    reveal(release_jumps);
    reveal(release_arm_jump);
    reveal(release_arm_jumps);
    stripping_undoes_jump_releases(*arm.body, x, ty);
}

proof fn stripping_undoes_arm_releases(s: Seq<ArmNode>, x: Seq<char>, ty: Ty)
    requires
        releases_arms(s, x) == 0,
    ensures
        strip_arm_jumps(release_arm_jumps(s, x, ty), x) == s,
    decreases s,
{
    reveal(release_jumps);
    reveal(release_arm_jump);
    reveal(release_arm_jumps);
    if s.len() > 0 {
        stripping_undoes_arm_releases(s.drop_last(), x, ty);
        stripping_undoes_arm_release(s.last(), x, ty);
        let init = release_arm_jumps(s.drop_last(), x, ty);
        let last = release_arm_jump(s.last(), x, ty);
        assert(init.push(last).drop_last() =~= init);
        assert(s.drop_last().push(s.last()) =~= s);
    }
}

/// Taking out the releases of a binding undoes their insertion: what is left is
/// the expression as it was, with the values of its tails bound to temporaries.
pub proof fn stripping_undoes_releases(n: u64, e: Node, x: Seq<char>, ty: Ty)
    requires
        releases(e, x) == 0,
    ensures
        strip(release_tails(n, e, x, ty).to, x) == tails_bound(n, e).to,
        release_tails(n, e, x, ty).next == tails_bound(n, e).next,
    decreases e,
{
    reveal(release_tails);
    reveal(release_arm_tail);
    reveal(release_arm_tails);
    reveal(release_after);
    match e {
        Node::Release { next, .. } => stripping_undoes_releases(n, *next, x, ty),
        Node::Let { name, value, next, .. } => {
            stripping_undoes_value_releases(*value, hands_on(*next, name), x, ty);
            stripping_undoes_releases(n, *next, x, ty);
        },
        Node::If { then, els, .. } => {
            stripping_undoes_releases(n, *then, x, ty);
            let t = release_tails(n, *then, x, ty);
            stripping_undoes_releases(t.next, *els, x, ty);
        },
        Node::Match { arms, .. } => stripping_undoes_arms(n, arms, x, ty),
        Node::Try { body, arms, ty: t, err_name } => {
            stripping_undoes_value_releases(e, true, x, ty);
            reveal_with_fuel(strip, 3);
            let leaf = release_value_jumps(e, true, x, ty);
            assert(node_ty(leaf) == node_ty(e));
            assert(release_tails(n, e, x, ty) == release_after(n, leaf, x, ty)) by {
                reveal(release_jumps);
                reveal(release_arm_jump);
                reveal(release_arm_jumps);
            }
        },
        _ => {
            lemma_no_value_to_strip(e, x);
            reveal_with_fuel(strip, 3);
        },
    }
}

proof fn stripping_undoes_arm(n: u64, arm: ArmNode, x: Seq<char>, ty: Ty)
    requires
        releases_arm(arm, x) == 0,
    ensures
        strip_arm(release_arm_tail(n, arm, x, ty).to, x) == arm_tail_bound(n, arm).to,
        release_arm_tail(n, arm, x, ty).next == arm_tail_bound(n, arm).next,
    decreases arm,
{
    reveal(release_tails);
    reveal(release_arm_tail);
    reveal(release_arm_tails);
    stripping_undoes_releases(n, *arm.body, x, ty);
}

proof fn stripping_undoes_arms(n: u64, s: Seq<ArmNode>, x: Seq<char>, ty: Ty)
    requires
        releases_arms(s, x) == 0,
    ensures
        strip_arms(release_arm_tails(n, s, x, ty).to, x) == arm_tails_bound(n, s).to,
        release_arm_tails(n, s, x, ty).next == arm_tails_bound(n, s).next,
    decreases s,
{
    reveal(release_tails);
    reveal(release_arm_tail);
    reveal(release_arm_tails);
    if s.len() > 0 {
        stripping_undoes_arms(n, s.drop_last(), x, ty);
        let init = release_arm_tails(n, s.drop_last(), x, ty);
        stripping_undoes_arm(init.next, s.last(), x, ty);
        let last = release_arm_tail(init.next, s.last(), x, ty);
        assert(init.to.push(last.to).drop_last() =~= init.to);
    }
}

proof fn lemma_binding_releases_nothing(n: u64, e: Node, x: Seq<char>)
    ensures
        releases(tails_bound(n, e).to, x) == releases(e, x),
    decreases e,
{
    match e {
        Node::Release { next, .. } => lemma_binding_releases_nothing(n, *next, x),
        Node::Let { next, .. } => lemma_binding_releases_nothing(n, *next, x),
        Node::If { then, els, .. } => {
            lemma_binding_releases_nothing(n, *then, x);
            lemma_binding_releases_nothing(tails_bound(n, *then).next, *els, x);
        },
        Node::Match { arms, .. } => lemma_binding_arms_releases_nothing(n, arms, x),
        _ => {
            reveal_with_fuel(releases, 2);
        },
    }
}

proof fn lemma_binding_arm_releases_nothing(n: u64, arm: ArmNode, x: Seq<char>)
    ensures
        releases_arm(arm_tail_bound(n, arm).to, x) == releases_arm(arm, x),
    decreases arm,
{
    lemma_binding_releases_nothing(n, *arm.body, x);
}

proof fn lemma_binding_arms_releases_nothing(n: u64, s: Seq<ArmNode>, x: Seq<char>)
    ensures
        releases_arms(arm_tails_bound(n, s).to, x) == releases_arms(s, x),
    decreases s,
{
    if s.len() > 0 {
        lemma_binding_arms_releases_nothing(n, s.drop_last(), x);
        let init = arm_tails_bound(n, s.drop_last());
        lemma_binding_arm_releases_nothing(init.next, s.last(), x);
        let last = arm_tail_bound(init.next, s.last());
        assert(init.to.push(last.to).drop_last() =~= init.to);
    }
}

/// Once the releases of a binding are taken out, none is left anywhere, catch arms
/// included, where there was none before their insertion; every other release
/// stays.
pub proof fn no_release_is_left(n: u64, e: Node, x: Seq<char>, ty: Ty, y: Seq<char>)
    requires
        releases(e, x) == 0,
    ensures
        releases(strip(release_tails(n, e, x, ty).to, x), x) == 0,
        releases(strip(release_tails(n, e, x, ty).to, x), y) == releases(e, y),
{
    stripping_undoes_releases(n, e, x, ty);
    lemma_binding_releases_nothing(n, e, x);
    lemma_binding_releases_nothing(n, e, y);
}

} // verus!
