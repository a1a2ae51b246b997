//! What reference counting promises.
//!
//! A managed binding is released exactly once on every path through its scope,
//! right above the point where the path produces its value or jumps out.

use vstd::prelude::*;

use crate::ir::{node_ty, ArmNode, Bind, Node};
use crate::rc::insert::{
    any_release, atomize, atomize_one, bind_all, caught_ty, operands_of, own, own_body,
    hands_on, own_call, own_catch_arm, own_catch_arms, own_match, own_match_arm, own_match_arms, release_after,
    release_all, release_arm_jump, release_arm_jumps, release_arm_tail, release_arm_tails,
    release_jumps, release_params, release_tails, release_value_jumps, rewrite_operand,
    rewrite_operands, temp_name, with_operands, wrap_node, Hoist,
};
use crate::rc::rename::next_count;
use crate::types::{heap, Ty};

verus! {

/// Whether every path through `e` passes exactly `k` releases of `x`. A path goes
/// by the continuations of bindings and the branches taken, to a value or to a
/// jump, and so does one that jumps out of a catch arm of a `try` that ends the
/// scope. What else a binding evaluates is not part of it.
pub open spec fn passes(e: Node, x: Seq<char>, k: int) -> bool
    decreases e,
{
    match e {
        Node::Let { name, value, next, .. } => passes(*next, x, k) && (hands_on(*next, name)
            ==> value_jumps_pass(*value, x, k)),
        Node::Release { name, next, .. } => passes(
            *next,
            x,
            if name == x {
                k - 1
            } else {
                k
            },
        ),
        Node::If { then, els, .. } => passes(*then, x, k) && passes(*els, x, k),
        Node::Match { arms, .. } => arms_pass(arms, x, k),
        Node::Try { arms, .. } => k == 0 && arm_jumps_pass(arms, x, k),
        _ => k == 0,
    }
}

/// [`passes`] of the body of an arm.
pub open spec fn arm_passes(arm: ArmNode, x: Seq<char>, k: int) -> bool
    decreases arm,
{
    passes(*arm.body, x, k)
}

/// [`passes`] of the body of every arm.
pub open spec fn arms_pass(s: Seq<ArmNode>, x: Seq<char>, k: int) -> bool
    decreases s,
{
    s.len() == 0 || (arms_pass(s.drop_last(), x, k) && arm_passes(s.last(), x, k))
}

/// Whether every jump out of `e` passes exactly `k` releases of `x` on its way.
pub open spec fn jumps_pass(e: Node, x: Seq<char>, k: int) -> bool
    decreases e,
{
    match e {
        Node::Let { name, value, next, .. } => jumps_pass(*next, x, k) && (hands_on(*next, name)
            ==> value_jumps_pass(*value, x, k)),
        Node::Release { name, next, .. } => jumps_pass(
            *next,
            x,
            if name == x {
                k - 1
            } else {
                k
            },
        ),
        Node::If { then, els, .. } => jumps_pass(*then, x, k) && jumps_pass(*els, x, k),
        Node::Match { arms, .. } => arm_jumps_pass(arms, x, k),
        Node::Try { arms, .. } => arm_jumps_pass(arms, x, k),
        Node::TailSelfCall { .. } => k == 0,
        Node::Throw { .. } => k == 0,
        _ => true,
    }
}

/// [`jumps_pass`] of the catch arms of a `try` that is bound.
pub open spec fn value_jumps_pass(value: Node, x: Seq<char>, k: int) -> bool
    decreases value,
{
    match value {
        Node::Try { arms, .. } => arm_jumps_pass(arms, x, k),
        _ => true,
    }
}

/// [`jumps_pass`] of the body of an arm.
pub open spec fn arm_jump_passes(arm: ArmNode, x: Seq<char>, k: int) -> bool
    decreases arm,
{
    jumps_pass(*arm.body, x, k)
}

/// [`jumps_pass`] of the body of every arm.
pub open spec fn arm_jumps_pass(s: Seq<ArmNode>, x: Seq<char>, k: int) -> bool
    decreases s,
{
    s.len() == 0 || (arm_jumps_pass(s.drop_last(), x, k) && arm_jump_passes(s.last(), x, k))
}

pub proof fn lemma_hands_on(n: u64, e: Node, x: Seq<char>, ty: Ty, bound: Seq<char>)
    ensures
        hands_on(release_tails(n, e, x, ty).to, bound) == hands_on(e, bound),
        hands_on(release_jumps(e, x, ty), bound) == hands_on(e, bound),
    decreases e,
{
    reveal(release_tails);
    reveal(release_arm_tail);
    reveal(release_arm_tails);
    reveal(release_after);
    reveal(release_jumps);
    reveal(release_arm_jump);
    reveal(release_arm_jumps);
    match e {
        Node::Release { next, .. } => lemma_hands_on(n, *next, x, ty, bound),
        _ => {
            reveal_with_fuel(hands_on, 3);
        },
    }
}

/// Inserting the releases of a binding adds one to every path.
pub proof fn every_path_gets_one_release(n: u64, e: Node, x: Seq<char>, ty: Ty, k: int)
    requires
        passes(e, x, k),
    ensures
        passes(release_tails(n, e, x, ty).to, x, k + 1),
    decreases e,
{
    reveal(release_tails);
    reveal(release_arm_tail);
    reveal(release_arm_tails);
    reveal(release_after);
    match e {
        Node::Let { name, value, next, .. } => {
            lemma_hands_on(n, *next, x, ty, name);
            if hands_on(*next, name) {
                value_jumps_get_one_release(*value, x, ty, k);
            }
            every_path_gets_one_release(n, *next, x, ty, k);
        },
        Node::Release { name, next, .. } => every_path_gets_one_release(
            n,
            *next,
            x,
            ty,
            if name == x {
                k - 1
            } else {
                k
            },
        ),
        Node::If { then, els, .. } => {
            every_path_gets_one_release(n, *then, x, ty, k);
            let t = release_tails(n, *then, x, ty);
            every_path_gets_one_release(t.next, *els, x, ty, k);
        },
        Node::Match { arms, .. } => arms_get_one_release(n, arms, x, ty, k),
        Node::Try { .. } => {
            value_jumps_get_one_release(e, x, ty, k);
            let leaf = release_value_jumps(e, true, x, ty);
            assert(release_tails(n, e, x, ty) == release_after(n, leaf, x, ty)) by {
                reveal(release_jumps);
                reveal(release_arm_jump);
                reveal(release_arm_jumps);
            }
            reveal_with_fuel(passes, 4);
        },
        _ => {
            reveal_with_fuel(passes, 4);
        },
    }
}

proof fn arm_gets_one_release(n: u64, arm: ArmNode, x: Seq<char>, ty: Ty, k: int)
    requires
        arm_passes(arm, x, k),
    ensures
        arm_passes(release_arm_tail(n, arm, x, ty).to, x, k + 1),
    decreases arm,
{
    reveal(release_tails);
    reveal(release_arm_tail);
    reveal(release_arm_tails);
    every_path_gets_one_release(n, *arm.body, x, ty, k);
}

pub proof fn arms_get_one_release(n: u64, s: Seq<ArmNode>, x: Seq<char>, ty: Ty, k: int)
    requires
        arms_pass(s, x, k),
    ensures
        arms_pass(release_arm_tails(n, s, x, ty).to, x, k + 1),
    decreases s,
{
    reveal(release_tails);
    reveal(release_arm_tail);
    reveal(release_arm_tails);
    if s.len() > 0 {
        arms_get_one_release(n, s.drop_last(), x, ty, k);
        let init = release_arm_tails(n, s.drop_last(), x, ty);
        arm_gets_one_release(init.next, s.last(), x, ty, k);
        let last = release_arm_tail(init.next, s.last(), x, ty);
        assert(init.to.push(last.to).drop_last() =~= init.to);
    }
}

/// Inserting the releases of one binding leaves those of every other alone.
pub proof fn other_releases_are_left_alone(n: u64, e: Node, x: Seq<char>, ty: Ty, y: Seq<char>, k: int)
    requires
        x != y,
        passes(e, y, k),
    ensures
        passes(release_tails(n, e, x, ty).to, y, k),
    decreases e,
{
    reveal(release_tails);
    reveal(release_arm_tail);
    reveal(release_arm_tails);
    reveal(release_after);
    match e {
        Node::Let { name, value, next, .. } => {
            lemma_hands_on(n, *next, x, ty, name);
            if hands_on(*next, name) {
                other_value_jumps_are_left_alone(*value, x, ty, y, k);
            }
            other_releases_are_left_alone(n, *next, x, ty, y, k);
        },
        Node::Release { name, next, .. } => other_releases_are_left_alone(
            n,
            *next,
            x,
            ty,
            y,
            if name == y {
                k - 1
            } else {
                k
            },
        ),
        Node::If { then, els, .. } => {
            other_releases_are_left_alone(n, *then, x, ty, y, k);
            let t = release_tails(n, *then, x, ty);
            other_releases_are_left_alone(t.next, *els, x, ty, y, k);
        },
        Node::Match { arms, .. } => other_arm_releases_are_left_alone(n, arms, x, ty, y, k),
        Node::Try { .. } => {
            other_value_jumps_are_left_alone(e, x, ty, y, k);
            let leaf = release_value_jumps(e, true, x, ty);
            assert(release_tails(n, e, x, ty) == release_after(n, leaf, x, ty)) by {
                reveal(release_jumps);
                reveal(release_arm_jump);
                reveal(release_arm_jumps);
            }
            reveal_with_fuel(passes, 4);
        },
        _ => {
            reveal_with_fuel(passes, 4);
        },
    }
}

proof fn other_arm_release_is_left_alone(n: u64, arm: ArmNode, x: Seq<char>, ty: Ty, y: Seq<char>, k: int)
    requires
        x != y,
        arm_passes(arm, y, k),
    ensures
        arm_passes(release_arm_tail(n, arm, x, ty).to, y, k),
    decreases arm,
{
    reveal(release_tails);
    reveal(release_arm_tail);
    reveal(release_arm_tails);
    other_releases_are_left_alone(n, *arm.body, x, ty, y, k);
}

proof fn other_arm_releases_are_left_alone(n: u64, s: Seq<ArmNode>, x: Seq<char>, ty: Ty, y: Seq<char>, k: int)
    requires
        x != y,
        arms_pass(s, y, k),
    ensures
        arms_pass(release_arm_tails(n, s, x, ty).to, y, k),
    decreases s,
{
    reveal(release_tails);
    reveal(release_arm_tail);
    reveal(release_arm_tails);
    if s.len() > 0 {
        other_arm_releases_are_left_alone(n, s.drop_last(), x, ty, y, k);
        let init = release_arm_tails(n, s.drop_last(), x, ty);
        other_arm_release_is_left_alone(init.next, s.last(), x, ty, y, k);
        let last = release_arm_tail(init.next, s.last(), x, ty);
        assert(init.to.push(last.to).drop_last() =~= init.to);
    }
}

proof fn every_jump_gets_one_release(e: Node, x: Seq<char>, ty: Ty, k: int)
    requires
        jumps_pass(e, x, k),
    ensures
        jumps_pass(release_jumps(e, x, ty), x, k + 1),
    decreases e,
{
    reveal(release_jumps);
    reveal(release_arm_jump);
    reveal(release_arm_jumps);
    match e {
        Node::Let { name, value, next, .. } => {
            lemma_hands_on(0, *next, x, ty, name);
            if hands_on(*next, name) {
                value_jumps_get_one_release(*value, x, ty, k);
            }
            every_jump_gets_one_release(*next, x, ty, k);
        },
        Node::Release { name, next, .. } => every_jump_gets_one_release(
            *next,
            x,
            ty,
            if name == x {
                k - 1
            } else {
                k
            },
        ),
        Node::If { then, els, .. } => {
            every_jump_gets_one_release(*then, x, ty, k);
            every_jump_gets_one_release(*els, x, ty, k);
        },
        Node::Match { arms, .. } => arm_jumps_get_one_release(arms, x, ty, k),
        Node::Try { arms, .. } => arm_jumps_get_one_release(arms, x, ty, k),
        _ => {
            reveal_with_fuel(jumps_pass, 3);
        },
    }
}

proof fn value_jumps_get_one_release(value: Node, x: Seq<char>, ty: Ty, k: int)
    requires
        value_jumps_pass(value, x, k),
    ensures
        value_jumps_pass(release_value_jumps(value, true, x, ty), x, k + 1),
    decreases value,
{
    reveal(release_jumps);
    reveal(release_arm_jump);
    reveal(release_arm_jumps);
    if let Node::Try { arms, .. } = value {
        arm_jumps_get_one_release(arms, x, ty, k);
    }
}

proof fn arm_jump_gets_one_release(arm: ArmNode, x: Seq<char>, ty: Ty, k: int)
    requires
        arm_jump_passes(arm, x, k),
    ensures
        arm_jump_passes(release_arm_jump(arm, x, ty), x, k + 1),
    decreases arm,
{
    reveal(release_jumps);
    reveal(release_arm_jump);
    reveal(release_arm_jumps);
    every_jump_gets_one_release(*arm.body, x, ty, k);
}

proof fn arm_jumps_get_one_release(s: Seq<ArmNode>, x: Seq<char>, ty: Ty, k: int)
    requires
        arm_jumps_pass(s, x, k),
    ensures
        arm_jumps_pass(release_arm_jumps(s, x, ty), x, k + 1),
    decreases s,
{
    reveal(release_jumps);
    reveal(release_arm_jump);
    reveal(release_arm_jumps);
    if s.len() > 0 {
        arm_jumps_get_one_release(s.drop_last(), x, ty, k);
        arm_jump_gets_one_release(s.last(), x, ty, k);
        let init = release_arm_jumps(s.drop_last(), x, ty);
        let last = release_arm_jump(s.last(), x, ty);
        assert(init.push(last).drop_last() =~= init);
    }
}

proof fn other_jumps_are_left_alone(e: Node, x: Seq<char>, ty: Ty, y: Seq<char>, k: int)
    requires
        x != y,
        jumps_pass(e, y, k),
    ensures
        jumps_pass(release_jumps(e, x, ty), y, k),
    decreases e,
{
    reveal(release_jumps);
    reveal(release_arm_jump);
    reveal(release_arm_jumps);
    match e {
        Node::Let { name, value, next, .. } => {
            lemma_hands_on(0, *next, x, ty, name);
            if hands_on(*next, name) {
                other_value_jumps_are_left_alone(*value, x, ty, y, k);
            }
            other_jumps_are_left_alone(*next, x, ty, y, k);
        },
        Node::Release { name, next, .. } => other_jumps_are_left_alone(
            *next,
            x,
            ty,
            y,
            if name == y {
                k - 1
            } else {
                k
            },
        ),
        Node::If { then, els, .. } => {
            other_jumps_are_left_alone(*then, x, ty, y, k);
            other_jumps_are_left_alone(*els, x, ty, y, k);
        },
        Node::Match { arms, .. } => other_arm_jumps_are_left_alone(arms, x, ty, y, k),
        Node::Try { arms, .. } => other_arm_jumps_are_left_alone(arms, x, ty, y, k),
        _ => {
            reveal_with_fuel(jumps_pass, 3);
        },
    }
}

pub proof fn other_value_jumps_are_left_alone(value: Node, x: Seq<char>, ty: Ty, y: Seq<char>, k: int)
    requires
        x != y,
        value_jumps_pass(value, y, k),
    ensures
        value_jumps_pass(release_value_jumps(value, true, x, ty), y, k),
    decreases value,
{
    reveal(release_jumps);
    reveal(release_arm_jump);
    reveal(release_arm_jumps);
    if let Node::Try { arms, .. } = value {
        other_arm_jumps_are_left_alone(arms, x, ty, y, k);
    }
}

proof fn other_arm_jump_is_left_alone(arm: ArmNode, x: Seq<char>, ty: Ty, y: Seq<char>, k: int)
    requires
        x != y,
        arm_jump_passes(arm, y, k),
    ensures
        arm_jump_passes(release_arm_jump(arm, x, ty), y, k),
    decreases arm,
{
    reveal(release_jumps);
    reveal(release_arm_jump);
    reveal(release_arm_jumps);
    other_jumps_are_left_alone(*arm.body, x, ty, y, k);
}

pub proof fn other_arm_jumps_are_left_alone(s: Seq<ArmNode>, x: Seq<char>, ty: Ty, y: Seq<char>, k: int)
    requires
        x != y,
        arm_jumps_pass(s, y, k),
    ensures
        arm_jumps_pass(release_arm_jumps(s, x, ty), y, k),
    decreases s,
{
    reveal(release_jumps);
    reveal(release_arm_jump);
    reveal(release_arm_jumps);
    if s.len() > 0 {
        other_arm_jumps_are_left_alone(s.drop_last(), x, ty, y, k);
        other_arm_jump_is_left_alone(s.last(), x, ty, y, k);
        let init = release_arm_jumps(s.drop_last(), x, ty);
        let last = release_arm_jump(s.last(), x, ty);
        assert(init.push(last).drop_last() =~= init);
    }
}

/// At a `try` that ends a scope, a jump out of a catch arm carries the release,
/// and every value flows on to the one release behind the `try`.
pub proof fn catch_arms_release_before_they_jump(n: u64, body: Node, arms: Seq<ArmNode>, node: Ty, err: Option<
    Seq<char>,
>, x: Seq<char>, ty: Ty, k: int)
    requires
        arm_jumps_pass(arms, x, k),
    ensures
        ({
            let e = Node::Try { body: Box::new(body), arms, ty: node, err_name: err };
            &&& release_tails(n, e, x, ty).to matches Node::Let { value, next, .. }
                && *value matches Node::Try { arms: inner, .. } && arm_jumps_pass(inner, x, k + 1)
                && passes(*next, x, 1)
        }),
{
    reveal(release_tails);
    reveal(release_arm_tail);
    reveal(release_arm_tails);
    reveal(release_after);
    arm_jumps_get_one_release(arms, x, ty, k);
    reveal_with_fuel(passes, 3);
}

/// Whether a name is that of a temporary.
pub open spec fn is_temp(x: Seq<char>) -> bool {
    exists|n: u64| x == #[trigger] temp_name(n)
}

/// Whether a `let` on a path through `e`, through what a `let` binds or through a
/// catch arm binds `x`.
pub open spec fn binds(e: Node, x: Seq<char>) -> bool
    decreases e,
{
    match e {
        Node::Let { name, value, next, .. } => name == x || binds(*value, x) || binds(*next, x),
        Node::Release { next, .. } => binds(*next, x),
        Node::If { then, els, .. } => binds(*then, x) || binds(*els, x),
        Node::Match { arms, .. } => arms_bind(arms, x),
        Node::Try { arms, .. } => arms_bind(arms, x),
        _ => false,
    }
}

/// [`binds`] of the body of an arm.
pub open spec fn arm_binds(arm: ArmNode, x: Seq<char>) -> bool
    decreases arm,
{
    binds(*arm.body, x)
}

/// [`binds`] of the body of an arm of several.
pub open spec fn arms_bind(s: Seq<ArmNode>, x: Seq<char>) -> bool
    decreases s,
{
    s.len() > 0 && (arms_bind(s.drop_last(), x) || arm_binds(s.last(), x))
}

/// Whether no path through `e` passes a release of `x`, catch arms of a `try` that
/// ends the scope included.
pub open spec fn clear(e: Node, x: Seq<char>) -> bool
    decreases e,
{
    match e {
        Node::Let { name, value, next, .. } => clear(*next, x) && (hands_on(*next, name)
            ==> clear(*value, x)),
        Node::Release { name, next, .. } => name != x && clear(*next, x),
        Node::If { then, els, .. } => clear(*then, x) && clear(*els, x),
        Node::Match { arms, .. } => arms_clear(arms, x),
        Node::Try { arms, .. } => arms_clear(arms, x),
        _ => true,
    }
}

/// [`clear`] of the body of an arm.
pub open spec fn arm_clear(arm: ArmNode, x: Seq<char>) -> bool
    decreases arm,
{
    clear(*arm.body, x)
}

/// [`clear`] of the body of every arm.
pub open spec fn arms_clear(s: Seq<ArmNode>, x: Seq<char>) -> bool
    decreases s,
{
    s.len() == 0 || (arms_clear(s.drop_last(), x) && arm_clear(s.last(), x))
}

proof fn lemma_clear_jumps(e: Node, x: Seq<char>)
    requires
        clear(e, x),
    ensures
        jumps_pass(e, x, 0),
    decreases e,
{
    match e {
        Node::Let { name, value, next, .. } => {
            lemma_clear_jumps(*next, x);
            if hands_on(*next, name) {
                lemma_clear_jumps(*value, x);
                assert(value_jumps_pass(*value, x, 0));
            }
        },
        Node::Release { next, .. } => lemma_clear_jumps(*next, x),
        Node::If { then, els, .. } => {
            lemma_clear_jumps(*then, x);
            lemma_clear_jumps(*els, x);
        },
        Node::Match { arms, .. } => lemma_clear_arm_jumps(arms, x),
        Node::Try { arms, .. } => lemma_clear_arm_jumps(arms, x),
        _ => {},
    }
}

proof fn lemma_clear_arm_jump(arm: ArmNode, x: Seq<char>)
    requires
        arm_clear(arm, x),
    ensures
        arm_jump_passes(arm, x, 0),
    decreases arm,
{
    lemma_clear_jumps(*arm.body, x);
}

proof fn lemma_clear_arm_jumps(s: Seq<ArmNode>, x: Seq<char>)
    requires
        arms_clear(s, x),
    ensures
        arm_jumps_pass(s, x, 0),
    decreases s,
{
    if s.len() > 0 {
        lemma_clear_arm_jumps(s.drop_last(), x);
        lemma_clear_arm_jump(s.last(), x);
    }
}

/// Where no path passes a release, every path passes none.
pub proof fn clear_paths_pass_none(e: Node, x: Seq<char>)
    requires
        clear(e, x),
    ensures
        passes(e, x, 0),
    decreases e,
{
    match e {
        Node::Let { name, value, next, .. } => {
            clear_paths_pass_none(*next, x);
            if hands_on(*next, name) {
                lemma_clear_jumps(*value, x);
            }
        },
        Node::Release { next, .. } => clear_paths_pass_none(*next, x),
        Node::If { then, els, .. } => {
            clear_paths_pass_none(*then, x);
            clear_paths_pass_none(*els, x);
        },
        Node::Match { arms, .. } => lemma_clear_arms_pass(arms, x),
        Node::Try { arms, .. } => lemma_clear_arm_jumps(arms, x),
        _ => {},
    }
}

proof fn lemma_clear_arm_passes(arm: ArmNode, x: Seq<char>)
    requires
        arm_clear(arm, x),
    ensures
        arm_passes(arm, x, 0),
    decreases arm,
{
    clear_paths_pass_none(*arm.body, x);
}

proof fn lemma_clear_arms_pass(s: Seq<ArmNode>, x: Seq<char>)
    requires
        arms_clear(s, x),
    ensures
        arms_pass(s, x, 0),
    decreases s,
{
    if s.len() > 0 {
        lemma_clear_arms_pass(s.drop_last(), x);
        lemma_clear_arm_passes(s.last(), x);
    }
}

proof fn lemma_jumps_stay_clear(e: Node, y: Seq<char>, ty: Ty, x: Seq<char>)
    requires
        x != y,
        clear(e, x),
    ensures
        clear(release_jumps(e, y, ty), x),
    decreases e,
{
    reveal(release_jumps);
    reveal(release_arm_jump);
    reveal(release_arm_jumps);
    match e {
        Node::Let { name, value, next, .. } => {
            lemma_hands_on(0, *next, y, ty, name);
            if hands_on(*next, name) {
                lemma_value_stays_clear(*value, true, y, ty, x);
            }
            lemma_jumps_stay_clear(*next, y, ty, x);
        },
        Node::Release { next, .. } => lemma_jumps_stay_clear(*next, y, ty, x),
        Node::If { then, els, .. } => {
            lemma_jumps_stay_clear(*then, y, ty, x);
            lemma_jumps_stay_clear(*els, y, ty, x);
        },
        Node::Match { arms, .. } => lemma_arm_jumps_stay_clear(arms, y, ty, x),
        Node::Try { arms, .. } => lemma_arm_jumps_stay_clear(arms, y, ty, x),
        _ => {
            reveal_with_fuel(clear, 3);
        },
    }
}

proof fn lemma_value_stays_clear(value: Node, handed_on: bool, y: Seq<char>, ty: Ty, x: Seq<char>)
    requires
        x != y,
        clear(value, x),
    ensures
        clear(release_value_jumps(value, handed_on, y, ty), x),
    decreases value,
{
    reveal(release_jumps);
    reveal(release_arm_jump);
    reveal(release_arm_jumps);
    if let Node::Try { arms, .. } = value {
        lemma_arm_jumps_stay_clear(arms, y, ty, x);
    }
}

proof fn lemma_arm_jump_stays_clear(arm: ArmNode, y: Seq<char>, ty: Ty, x: Seq<char>)
    requires
        x != y,
        arm_clear(arm, x),
    ensures
        arm_clear(release_arm_jump(arm, y, ty), x),
    decreases arm,
{
    reveal(release_jumps);
    reveal(release_arm_jump);
    reveal(release_arm_jumps);
    lemma_jumps_stay_clear(*arm.body, y, ty, x);
}

proof fn lemma_arm_jumps_stay_clear(s: Seq<ArmNode>, y: Seq<char>, ty: Ty, x: Seq<char>)
    requires
        x != y,
        arms_clear(s, x),
    ensures
        arms_clear(release_arm_jumps(s, y, ty), x),
    decreases s,
{
    reveal(release_jumps);
    reveal(release_arm_jump);
    reveal(release_arm_jumps);
    if s.len() > 0 {
        lemma_arm_jumps_stay_clear(s.drop_last(), y, ty, x);
        lemma_arm_jump_stays_clear(s.last(), y, ty, x);
        let init = release_arm_jumps(s.drop_last(), y, ty);
        let last = release_arm_jump(s.last(), y, ty);
        assert(init.push(last).drop_last() =~= init);
    }
}

proof fn lemma_tails_stay_clear(n: u64, e: Node, y: Seq<char>, ty: Ty, x: Seq<char>)
    requires
        x != y,
        clear(e, x),
    ensures
        clear(release_tails(n, e, y, ty).to, x),
    decreases e,
{
    reveal(release_tails);
    reveal(release_arm_tail);
    reveal(release_arm_tails);
    reveal(release_after);
    match e {
        Node::Let { name, value, next, .. } => {
            lemma_hands_on(n, *next, y, ty, name);
            if hands_on(*next, name) {
                lemma_value_stays_clear(*value, true, y, ty, x);
            }
            lemma_tails_stay_clear(n, *next, y, ty, x);
        },
        Node::Release { next, .. } => lemma_tails_stay_clear(n, *next, y, ty, x),
        Node::If { then, els, .. } => {
            lemma_tails_stay_clear(n, *then, y, ty, x);
            lemma_tails_stay_clear(release_tails(n, *then, y, ty).next, *els, y, ty, x);
        },
        Node::Match { arms, .. } => lemma_arm_tails_stay_clear(n, arms, y, ty, x),
        Node::Try { .. } => {
            lemma_value_stays_clear(e, true, y, ty, x);
            let leaf = release_value_jumps(e, true, y, ty);
            assert(release_tails(n, e, y, ty) == release_after(n, leaf, y, ty)) by {
                reveal(release_jumps);
                reveal(release_arm_jump);
                reveal(release_arm_jumps);
            }
            reveal_with_fuel(clear, 4);
        },
        _ => {
            reveal_with_fuel(clear, 4);
        },
    }
}

proof fn lemma_arm_tail_stays_clear(n: u64, arm: ArmNode, y: Seq<char>, ty: Ty, x: Seq<char>)
    requires
        x != y,
        arm_clear(arm, x),
    ensures
        arm_clear(release_arm_tail(n, arm, y, ty).to, x),
    decreases arm,
{
    reveal(release_tails);
    reveal(release_arm_tail);
    reveal(release_arm_tails);
    lemma_tails_stay_clear(n, *arm.body, y, ty, x);
}

proof fn lemma_arm_tails_stay_clear(n: u64, s: Seq<ArmNode>, y: Seq<char>, ty: Ty, x: Seq<char>)
    requires
        x != y,
        arms_clear(s, x),
    ensures
        arms_clear(release_arm_tails(n, s, y, ty).to, x),
    decreases s,
{
    reveal(release_tails);
    reveal(release_arm_tail);
    reveal(release_arm_tails);
    if s.len() > 0 {
        lemma_arm_tails_stay_clear(n, s.drop_last(), y, ty, x);
        let init = release_arm_tails(n, s.drop_last(), y, ty);
        lemma_arm_tail_stays_clear(init.next, s.last(), y, ty, x);
        let last = release_arm_tail(init.next, s.last(), y, ty);
        assert(init.to.push(last.to).drop_last() =~= init.to);
    }
}

/// Whether all hoisted operands are bound to temporaries.
spec fn temps(s: Seq<Hoist>) -> bool {
    forall|i: int| 0 <= i < s.len() ==> is_temp((#[trigger] s[i]).name)
}

proof fn lemma_bind_all(s: Seq<Hoist>, body: Node, x: Seq<char>)
    requires
        clear(body, x),
        !(body is Var),
        !(body is Release),
    ensures
        clear(bind_all(s, body), x),
    decreases s.len(),
{
    reveal(bind_all);
    if s.len() > 0 {
        let h = s.last();
        lemma_bind_all(
            s.drop_last(),
            Node::Let {
                name: h.name,
                value_ty: h.ty,
                value: Box::new(h.value),
                next: Box::new(body),
            },
            x,
        );
    }
}

proof fn lemma_release_all(s: Seq<Hoist>, body: Node, x: Seq<char>)
    requires
        temps(s),
        !is_temp(x),
        clear(body, x),
    ensures
        clear(release_all(s, body), x),
    decreases s.len(),
{
    reveal(release_all);
    if s.len() > 0 {
        assert(temps(s.drop_last())) by {
            assert forall|i: int| 0 <= i < s.drop_last().len() implies is_temp(
                (#[trigger] s.drop_last()[i]).name,
            ) by {
                assert(is_temp(s[i].name));
            }
        }
        lemma_release_all(s.drop_last(), body, x);
        assert(is_temp(s[s.len() - 1].name));
    }
}

proof fn lemma_wrap_node(n: u64, s: Seq<Hoist>, node: Node, x: Seq<char>)
    requires
        temps(s),
        !is_temp(x),
        clear(node, x),
        !(node is Var),
        !(node is Release),
    ensures
        clear(wrap_node(n, s, node).to, x),
{
    reveal(wrap_node);
    if any_release(s) {
        let name = temp_name(n);
        let ty = node_ty(node);
        let var = Node::Var { name, ty };
        lemma_release_all(s, var, x);
        lemma_bind_all(
            s,
            Node::Let {
                name,
                value_ty: ty,
                value: Box::new(node),
                next: Box::new(release_all(s, var)),
            },
            x,
        );
    } else {
        lemma_bind_all(s, node, x);
    }
}

proof fn lemma_operands(n: u64, e: Node, k: nat)
    ensures
        temps(rewrite_operands(n, e, k).hoisted),
    decreases k,
{
    if k > 0 && k <= operands_of(e).len() {
        lemma_operands(n, e, (k - 1) as nat);
        let init = rewrite_operands(n, e, (k - 1) as nat);
        let o = rewrite_operand(init.next, e, k - 1);
        if let Some(h) = o.hoist {
            assert(is_temp(h.name));
        }
    }
}

proof fn lemma_atomize(n: u64, args: Seq<Node>)
    ensures
        temps(atomize(n, args).hoisted),
    decreases args.len(),
{
    if args.len() > 0 {
        lemma_atomize(n, args.drop_last());
        let init = atomize(n, args.drop_last());
        let o = atomize_one(init.next, args.last());
        if let Some(h) = o.hoist {
            assert(is_temp(h.name));
        }
    }
}

/// Making an expression owned releases nothing but what it binds itself.
pub proof fn owning_releases_only_what_it_binds(n: u64, e: Node, x: Seq<char>)
    requires
        clear(e, x),
        !binds(e, x),
        !is_temp(x),
    ensures
        clear(own(n, e).to, x),
    decreases e,
{
    match e {
        Node::Let { name, value_ty, value, next } => {
            let v = own(n, *value);
            let b = own(v.next, *next);
            owning_releases_only_what_it_binds(v.next, *next, x);
            lemma_owned_hands_on(v.next, *next, name);
            if hands_on(*next, name) {
                owning_releases_only_what_it_binds(n, *value, x);
            }
            if heap(value_ty) {
                lemma_hands_on(b.next, b.to, name, value_ty, name);
                lemma_tails_stay_clear(b.next, b.to, name, value_ty, x);
            }
        },
        Node::If { cond, then, els, .. } => {
            let c = own(n, *cond);
            let t = own(c.next, *then);
            owning_releases_only_what_it_binds(c.next, *then, x);
            owning_releases_only_what_it_binds(t.next, *els, x);
        },
        Node::Match { scrutinee, arms, ty } => {
            let a = own_match_arms(n, arms);
            own_arms_release_only_what_they_bind(n, arms, x);
            if !(*scrutinee is Var) {
                let sty = node_ty(*scrutinee);
                let v = own(a.next, *scrutinee);
                let name = temp_name(v.next);
                assert(is_temp(name));
                lemma_arm_tails_stay_clear(next_count(v.next), a.to, name, sty, x);
                let t = release_arm_tails(next_count(v.next), a.to, name, sty);
                let inner = Node::Match {
                    scrutinee: Box::new(Node::Var { name, ty: sty }),
                    arms: t.to,
                    ty,
                };
                assert(clear(inner, x));
                let r = Node::Let {
                    name,
                    value_ty: sty,
                    value: Box::new(v.to),
                    next: Box::new(inner),
                };
                assert(own_match(n, e).to == r);
            } else {
                let r = Node::Match { scrutinee, arms: a.to, ty };
                assert(own_match(n, e).to == r);
            }
            assert(own(n, e) == own_match(n, e));
        },
        Node::Call { callee, args, ret } => {
            let r = rewrite_operands(n, e, args.len());
            lemma_operands(n, e, args.len());
            let direct = Node::Call { callee, args: r.ops, ret };
            lemma_wrap_node(r.next, r.hoisted, direct, x);
            assert(own(n, e) == own_call(n, e));
            if !(*callee is FunctionRef || *callee is Var) {
                let ty = node_ty(*callee);
                let v = own(r.next, *callee);
                let name = temp_name(v.next);
                let all = seq![Hoist { name, ty, value: v.to, release: true }] + r.hoisted;
                assert(temps(all)) by {
                    assert(is_temp(name));
                    assert forall|i: int| 0 <= i < all.len() implies is_temp(
                        (#[trigger] all[i]).name,
                    ) by {
                        if i > 0 {
                            assert(all[i] == r.hoisted[i - 1]);
                        }
                    }
                }
                lemma_wrap_node(
                    next_count(v.next),
                    all,
                    Node::Call { callee: Box::new(Node::Var { name, ty }), args: r.ops, ret },
                    x,
                );
            }
        },
        Node::TailSelfCall { args, ty } => {
            let r = atomize(n, args);
            lemma_bind_all(r.hoisted, Node::TailSelfCall { args: r.ops, ty }, x);
        },
        Node::Intrinsic { .. } | Node::Platform { .. } | Node::Binary { .. } | Node::Concat { .. }
        | Node::Array { .. } | Node::EnumValue { .. } | Node::RecordValue { .. }
        | Node::FieldAccess { .. } | Node::CharFromCode(_) | Node::StringFromChar(_) => {
            let r = rewrite_operands(n, e, operands_of(e).len());
            lemma_operands(n, e, operands_of(e).len());
            lemma_wrap_node(r.next, r.hoisted, with_operands(e, r.ops), x);
        },
        Node::Throw { value } => {
            let v = own(n, *value);
            let ty = node_ty(v.to);
            let name = temp_name(v.next);
            let thrown = Node::Throw { value: Box::new(Node::Var { name, ty }) };
            assert(clear(thrown, x));
        },
        Node::Try { arms, .. } => {
            let err = temp_name(n);
            assert(is_temp(err));
            own_catch_arms_release_only_what_they_bind(next_count(n), arms, err, x);
        },
        _ => {},
    }
}

proof fn lemma_owned_hands_on(n: u64, e: Node, bound: Seq<char>)
    ensures
        hands_on(own(n, e).to, bound) ==> hands_on(e, bound),
{
    match e {
        Node::Call { callee, args, ret } => {
            let r = rewrite_operands(n, e, args.len());
            assert(own(n, e) == own_call(n, e));
            lemma_wrapped_hands_on(r.next, r.hoisted, Node::Call { callee, args: r.ops, ret }, bound);
            if !(*callee is FunctionRef || *callee is Var) {
                let ty = node_ty(*callee);
                let v = own(r.next, *callee);
                let name = temp_name(v.next);
                let all = seq![Hoist { name, ty, value: v.to, release: true }] + r.hoisted;
                let call = Node::Call { callee: Box::new(Node::Var { name, ty }), args: r.ops, ret };
                lemma_wrapped_hands_on(next_count(v.next), all, call, bound);
                assert(own_call(n, e) == wrap_node(next_count(v.next), all, call));
            } else {
                let direct = Node::Call { callee, args: r.ops, ret };
                assert(own_call(n, e) == wrap_node(r.next, r.hoisted, direct));
            }
        },
        Node::TailSelfCall { args, ty } => {
            let r = atomize(n, args);
            lemma_bound_hands_on(r.hoisted, Node::TailSelfCall { args: r.ops, ty }, bound);
        },
        Node::Intrinsic { .. } | Node::Platform { .. } | Node::Binary { .. } | Node::Concat { .. }
        | Node::Array { .. } | Node::EnumValue { .. } | Node::RecordValue { .. }
        | Node::FieldAccess { .. } | Node::CharFromCode(_) | Node::StringFromChar(_) => {
            let r = rewrite_operands(n, e, operands_of(e).len());
            lemma_wrapped_hands_on(r.next, r.hoisted, with_operands(e, r.ops), bound);
        },
        Node::Match { .. } => {
            assert(own(n, e) == own_match(n, e));
        },
        _ => {},
    }
}

proof fn lemma_bound_hands_on(s: Seq<Hoist>, body: Node, bound: Seq<char>)
    requires
        !hands_on(body, bound),
    ensures
        !hands_on(bind_all(s, body), bound),
    decreases s.len(),
{
    reveal(bind_all);
    if s.len() > 0 {
        let h = s.last();
        lemma_bound_hands_on(
            s.drop_last(),
            Node::Let {
                name: h.name,
                value_ty: h.ty,
                value: Box::new(h.value),
                next: Box::new(body),
            },
            bound,
        );
    }
}

proof fn lemma_wrapped_hands_on(n: u64, s: Seq<Hoist>, node: Node, bound: Seq<char>)
    requires
        !hands_on(node, bound),
    ensures
        !hands_on(wrap_node(n, s, node).to, bound),
{
    reveal(wrap_node);
    let name = temp_name(n);
    let ty = node_ty(node);
    lemma_bound_hands_on(s, node, bound);
    lemma_bound_hands_on(
        s,
        Node::Let {
            name,
            value_ty: ty,
            value: Box::new(node),
            next: Box::new(release_all(s, Node::Var { name, ty })),
        },
        bound,
    );
}

proof fn own_catch_arm_releases_only_what_it_binds(n: u64, arm: ArmNode, err: Seq<char>, x: Seq<char>)
    requires
        arm_clear(arm, x),
        !arm_binds(arm, x),
        !is_temp(x),
        is_temp(err),
    ensures
        arm_clear(own_catch_arm(n, arm, err).to, x),
    decreases arm,
{
    let b = own(n, *arm.body);
    owning_releases_only_what_it_binds(n, *arm.body, x);
    match arm.guard {
        Some(guard) => {
            let g = own(b.next, *guard);
            lemma_tails_stay_clear(g.next, b.to, err, caught_ty(), x);
        },
        None => lemma_tails_stay_clear(b.next, b.to, err, caught_ty(), x),
    }
}

proof fn own_catch_arms_release_only_what_they_bind(n: u64, s: Seq<ArmNode>, err: Seq<char>, x: Seq<char>)
    requires
        arms_clear(s, x),
        !arms_bind(s, x),
        !is_temp(x),
        is_temp(err),
    ensures
        arms_clear(own_catch_arms(n, s, err).to, x),
    decreases s,
{
    if s.len() > 0 {
        own_catch_arms_release_only_what_they_bind(n, s.drop_last(), err, x);
        let init = own_catch_arms(n, s.drop_last(), err);
        own_catch_arm_releases_only_what_it_binds(init.next, s.last(), err, x);
        let last = own_catch_arm(init.next, s.last(), err);
        assert(init.to.push(last.to).drop_last() =~= init.to);
    }
}

proof fn own_arm_releases_only_what_it_binds(n: u64, arm: ArmNode, x: Seq<char>)
    requires
        arm_clear(arm, x),
        !arm_binds(arm, x),
        !is_temp(x),
    ensures
        arm_clear(own_match_arm(n, arm).to, x),
    decreases arm,
{
    match arm.guard {
        Some(guard) => owning_releases_only_what_it_binds(own(n, *guard).next, *arm.body, x),
        None => owning_releases_only_what_it_binds(n, *arm.body, x),
    }
}

proof fn own_arms_release_only_what_they_bind(n: u64, s: Seq<ArmNode>, x: Seq<char>)
    requires
        arms_clear(s, x),
        !arms_bind(s, x),
        !is_temp(x),
    ensures
        arms_clear(own_match_arms(n, s).to, x),
    decreases s,
{
    if s.len() > 0 {
        own_arms_release_only_what_they_bind(n, s.drop_last(), x);
        let init = own_match_arms(n, s.drop_last());
        own_arm_releases_only_what_it_binds(init.next, s.last(), x);
        let last = own_match_arm(init.next, s.last());
        assert(init.to.push(last.to).drop_last() =~= init.to);
    }
}

/// A heap value that a `let` binds is released exactly once on every path through
/// its scope, provided that nothing in the scope has its name or releases it.
pub proof fn bindings_are_released_once(n: u64, name: Seq<char>, value_ty: Ty, value: Node, next: Node)
    requires
        heap(value_ty),
        clear(next, name),
        !binds(next, name),
        !is_temp(name),
    ensures
        ({
            let e = Node::Let { name, value_ty, value: Box::new(value), next: Box::new(next) };
            own(n, e).to matches Node::Let { name: bound, next: scope, .. } && bound == name
                && passes(*scope, name, 1)
        }),
{
    let v = own(n, value);
    let b = own(v.next, next);
    owning_releases_only_what_it_binds(v.next, next, name);
    clear_paths_pass_none(b.to, name);
    every_path_gets_one_release(b.next, b.to, name, value_ty, 0);
}

/// A heap parameter is released exactly once on every path out of its function,
/// and no other parameter is.
pub proof fn parameters_are_released_once(n: u64, params: Seq<Bind>, body: Node, i: int)
    requires
        0 <= i < params.len(),
        forall|j: int, k: int|
            0 <= j < k < params.len() ==> (#[trigger] params[j]).name != (#[trigger] params[k]).name,
        clear(body, params[i].name),
        !binds(body, params[i].name),
        !is_temp(params[i].name),
    ensures
        passes(
            own_body(n, params, body).to,
            params[i].name,
            if heap(params[i].ty) {
                1
            } else {
                0
            },
        ),
{
    let o = own(n, body);
    owning_releases_only_what_it_binds(n, body, params[i].name);
    clear_paths_pass_none(o.to, params[i].name);
    lemma_release_params(o.next, params, o.to, params[i].name, i);
}

/// How often the releases of parameters release `x`, which is the name of the one
/// at `i`, or of none where `i` is beyond them.
proof fn lemma_release_params(n: u64, params: Seq<Bind>, body: Node, x: Seq<char>, i: int)
    requires
        forall|j: int| 0 <= j < params.len() && j != i ==> (#[trigger] params[j]).name != x,
        0 <= i < params.len() ==> params[i].name == x,
        passes(body, x, 0),
    ensures
        passes(
            release_params(n, params, body).to,
            x,
            if 0 <= i < params.len() && heap(params[i].ty) {
                1
            } else {
                0
            },
        ),
    decreases params.len(),
{
    reveal(release_params);
    if params.len() > 0 {
        let front = params.drop_last();
        assert forall|j: int| 0 <= j < front.len() && j != i implies (#[trigger] front[j]).name
            != x by {
            assert(front[j] == params[j]);
        }
        lemma_release_params(n, front, body, x, i);
        let init = release_params(n, front, body);
        let p = params.last();
        if heap(p.ty) {
            if i == params.len() - 1 {
                every_path_gets_one_release(init.next, init.to, p.name, p.ty, 0);
            } else {
                assert(params[params.len() - 1].name != x);
                other_releases_are_left_alone(
                    init.next,
                    init.to,
                    p.name,
                    p.ty,
                    x,
                    if 0 <= i < front.len() && heap(front[i].ty) {
                        1
                    } else {
                        0
                    },
                );
            }
        }
    }
}

/// A caught error is released exactly once on every path out of its arm.
pub proof fn caught_errors_are_released_once(n: u64, arm: ArmNode, err: Seq<char>)
    requires
        passes(own(n, *arm.body).to, err, 0),
    ensures
        arm_passes(own_catch_arm(n, arm, err).to, err, 1),
{
    let b = own(n, *arm.body);
    match arm.guard {
        Some(guard) => {
            let g = own(b.next, *guard);
            every_path_gets_one_release(g.next, b.to, err, caught_ty(), 0);
        },
        None => every_path_gets_one_release(b.next, b.to, err, caught_ty(), 0),
    }
}

} // verus!
