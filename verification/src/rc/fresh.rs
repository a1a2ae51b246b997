//! Temporaries are fresh: while their numbers do not run out, nothing in the scope
//! of a heap binding is bound under its name.

use vstd::prelude::*;

use crate::ir::{node_ty, ArmNode, Bind, FnNode, Node};
use crate::rc::absent::{
    absent, arm_absent, arms_absent, lemma_all_absent, lemma_arm_jumps_absent,
    lemma_built_absent, lemma_jumps_absent, lemma_owned_absent, lemma_params_absent,
    lemma_release_absent, lemma_tails_absent, lemma_value_absent, visible_names_are_not_bound,
};
use crate::rc::apart::{
    apart, apart_all, apart_arm, apart_arms, decimals_are_apart, param_vis, params_apart,
    pattern_vis,
};
use crate::rc::insert::{
    add_hoist, any_release, atomize, atomize_one, bind_all, caught_ty, hands_on, hoisted_operand,
    needs_release, operands_of, own, own_body, own_call, own_catch_arm, own_catch_arms, own_match,
    own_match_arm, own_match_arms, release_after, release_all, release_arm_jump,
    release_arm_jumps, release_arm_tail, release_arm_tails, release_jumps, release_params,
    release_tails, release_value_jumps, rewrite_operand, rewrite_operands, takes_ownership,
    temp_name, with_operands, wrap_node, Hoist, Operand, Rewritten,
};
use crate::rc::laws::is_temp;
use crate::rc::once::{lemma_params, unmanaged, unmanaged_all, unmanaged_arm, unmanaged_arms};
use crate::rc::owned::{is_bare, lemma_all_bare, lemma_taken_bare};
use crate::rc::place::{all_scopes_apart, arm_scope_apart, arm_scopes_apart, scopes_apart};
use crate::rc::manage_fns;
use crate::rc::rename::next_count;
use crate::strings::decimal;
use crate::types::{heap, Ty};

verus! {

/// How many tails `e` has: the points where it produces its value or jumps out.
pub open spec fn tails(e: Node) -> nat
    decreases e,
{
    match e {
        Node::Let { next, .. } => tails(*next),
        Node::Release { next, .. } => tails(*next),
        Node::If { then, els, .. } => tails(*then) + tails(*els),
        Node::Match { arms, .. } => tails_arms(arms),
        _ => 1,
    }
}

/// [`tails`] of the body of an arm.
pub open spec fn tails_arm(arm: ArmNode) -> nat
    decreases arm,
{
    tails(*arm.body)
}

/// [`tails`] of the bodies of several arms.
pub open spec fn tails_arms(s: Seq<ArmNode>) -> nat
    decreases s,
{
    if s.len() == 0 {
        0
    } else {
        tails_arms(s.drop_last()) + tails_arm(s.last())
    }
}

/// How many numbers the temporaries of the owned form of `e` take at most.
pub open spec fn numbers(e: Node) -> nat
    decreases e,
{
    match e {
        Node::Let { value, next, .. } => numbers(*value) + numbers(*next) + tails(*next),
        Node::Call { callee, args, .. } => numbers(*callee) + numbers_all(args) + 2,
        Node::Platform { args, .. } => numbers_all(args) + 1,
        Node::Intrinsic { args, .. } => numbers_all(args) + 1,
        Node::TailSelfCall { args, .. } => numbers_all(args),
        Node::Array { elems, .. } => numbers_all(elems) + 1,
        Node::EnumValue { payload, .. } => numbers_all(payload) + 1,
        Node::RecordValue { fields, .. } => numbers_all(fields) + 1,
        Node::FieldAccess { target, .. } => numbers(*target) + 2,
        Node::CharFromCode(value) => numbers(*value) + 2,
        Node::StringFromChar(value) => numbers(*value) + 2,
        Node::Binary { left, right, .. } => numbers(*left) + numbers(*right) + 3,
        Node::Concat { left, right } => numbers(*left) + numbers(*right) + 3,
        Node::If { cond, then, els, .. } => numbers(*cond) + numbers(*then) + numbers(*els),
        Node::Match { scrutinee, arms, .. } => numbers(*scrutinee) + numbers_arms(arms) + tails_arms(
            arms,
        ) + 1,
        Node::Try { body, arms, .. } => numbers(*body) + numbers_arms(arms) + tails_arms(arms) + 1,
        Node::Question { value, .. } => numbers(*value),
        Node::Throw { value } => numbers(*value) + 1,
        Node::Panic { message } => numbers(*message),
        Node::Fn { params, body, .. } => numbers(*body) + params.len() * tails(*body),
        _ => 0,
    }
}

/// [`numbers`] of the operands of an expression, with one more for each.
pub open spec fn numbers_all(s: Seq<Node>) -> nat
    decreases s,
{
    if s.len() == 0 {
        0
    } else {
        numbers_all(s.drop_last()) + numbers(s.last()) + 1
    }
}

/// [`numbers`] of the guard and the body of an arm.
pub open spec fn numbers_arm(arm: ArmNode) -> nat
    decreases arm,
{
    match arm.guard {
        Some(guard) => numbers(*guard) + numbers(*arm.body),
        None => numbers(*arm.body),
    }
}

/// [`numbers`] of several arms.
pub open spec fn numbers_arms(s: Seq<ArmNode>) -> nat
    decreases s,
{
    if s.len() == 0 {
        0
    } else {
        numbers_arms(s.drop_last()) + numbers_arm(s.last())
    }
}

/// Whether a number is not in a range.
pub open spec fn is_outside(m: u64, lo: int, hi: int) -> bool {
    m < lo || m >= hi
}

/// Whether the temporaries that `e` binds, lambdas aside, have numbers in a range.
pub open spec fn ranged(e: Node, lo: int, hi: int) -> bool {
    forall|m: u64| is_outside(m, lo, hi) ==> absent(e, #[trigger] temp_name(m))
}

/// [`ranged`] of several arms.
pub open spec fn arms_ranged(s: Seq<ArmNode>, lo: int, hi: int) -> bool {
    forall|m: u64| is_outside(m, lo, hi) ==> arms_absent(s, #[trigger] temp_name(m))
}

/// [`ranged`] of an arm.
pub open spec fn arm_ranged(arm: ArmNode, lo: int, hi: int) -> bool {
    forall|m: u64| is_outside(m, lo, hi) ==> arm_absent(arm, #[trigger] temp_name(m))
}

/// Whether a name is that of a temporary with a number in a range.
pub open spec fn is_numbered(name: Seq<char>, lo: int, hi: int) -> bool {
    exists|m: u64| lo <= m < hi && name == #[trigger] temp_name(m)
}

pub proof fn lemma_temps_differ(a: u64, b: u64)
    requires
        temp_name(a) == temp_name(b),
    ensures
        a == b,
{
    assert(temp_name(a).skip("$rc"@.len() as int) =~= decimal(a as nat));
    assert(temp_name(b).skip("$rc"@.len() as int) =~= decimal(b as nat));
    decimals_are_apart(a as nat, b as nat);
}

/// What an expression in a range does not bind.
proof fn lemma_not_in_range(e: Node, lo: int, hi: int, name: Seq<char>, a: int, b: int)
    requires
        ranged(e, lo, hi),
        is_numbered(name, a, b),
        b <= lo || hi <= a,
    ensures
        absent(e, name),
{
    let m = choose|m: u64| a <= m < b && name == #[trigger] temp_name(m);
    assert(is_outside(m, lo, hi));
    assert(absent(e, temp_name(m)));
}

proof fn lemma_jumps_apart(e: Node, y: Seq<char>, ty: Ty)
    requires
        scopes_apart(e),
    ensures
        scopes_apart(release_jumps(e, y, ty)),
    decreases e,
{
    reveal(release_jumps);
    reveal(release_arm_jump);
    reveal(release_arm_jumps);
    match e {
        Node::Let { name, value_ty, value, next } => {
            if heap(value_ty) {
                lemma_jumps_absent(*next, y, ty, name);
            }
            lemma_value_apart(*value, hands_on(*next, name), y, ty);
            lemma_jumps_apart(*next, y, ty);
        },
        Node::Release { next, .. } => lemma_jumps_apart(*next, y, ty),
        Node::If { then, els, .. } => {
            lemma_jumps_apart(*then, y, ty);
            lemma_jumps_apart(*els, y, ty);
        },
        Node::Match { arms, .. } => lemma_arm_jumps_apart(arms, y, ty),
        Node::Try { arms, err_name, .. } => {
            lemma_arm_jumps_apart(arms, y, ty);
            if let Some(x) = err_name {
                lemma_arm_jumps_absent(arms, y, ty, x);
            }
        },
        _ => {
            reveal_with_fuel(scopes_apart, 2);
        },
    }
}

proof fn lemma_value_apart(value: Node, handed_on: bool, y: Seq<char>, ty: Ty)
    requires
        scopes_apart(value),
    ensures
        scopes_apart(release_value_jumps(value, handed_on, y, ty)),
    decreases value,
{
    reveal(release_jumps);
    reveal(release_arm_jump);
    reveal(release_arm_jumps);
    if let Node::Try { arms, err_name, .. } = value {
        lemma_arm_jumps_apart(arms, y, ty);
        if let Some(x) = err_name {
            lemma_arm_jumps_absent(arms, y, ty, x);
        }
    }
}

proof fn lemma_arm_jump_apart(arm: ArmNode, y: Seq<char>, ty: Ty)
    requires
        arm_scope_apart(arm),
    ensures
        arm_scope_apart(release_arm_jump(arm, y, ty)),
    decreases arm,
{
    reveal(release_jumps);
    reveal(release_arm_jump);
    reveal(release_arm_jumps);
    lemma_jumps_apart(*arm.body, y, ty);
}

proof fn lemma_arm_jumps_apart(s: Seq<ArmNode>, y: Seq<char>, ty: Ty)
    requires
        arm_scopes_apart(s),
    ensures
        arm_scopes_apart(release_arm_jumps(s, y, ty)),
    decreases s,
{
    reveal(release_jumps);
    reveal(release_arm_jump);
    reveal(release_arm_jumps);
    if s.len() > 0 {
        lemma_arm_jumps_apart(s.drop_last(), y, ty);
        lemma_arm_jump_apart(s.last(), y, ty);
        let init = release_arm_jumps(s.drop_last(), y, ty);
        assert(init.push(release_arm_jump(s.last(), y, ty)).drop_last() =~= init);
    }
}

pub proof fn lemma_tails_number(n: u64, e: Node, y: Seq<char>, ty: Ty)
    requires
        n + tails(e) <= u64::MAX,
    ensures
        n <= release_tails(n, e, y, ty).next <= n + tails(e),
        tails(release_tails(n, e, y, ty).to) == tails(e),
    decreases e,
{
    reveal(release_tails);
    reveal(release_arm_tail);
    reveal(release_arm_tails);
    reveal(release_after);
    match e {
        Node::Let { next, .. } => lemma_tails_number(n, *next, y, ty),
        Node::Release { next, .. } => lemma_tails_number(n, *next, y, ty),
        Node::If { then, els, .. } => {
            lemma_tails_number(n, *then, y, ty);
            lemma_tails_number(release_tails(n, *then, y, ty).next, *els, y, ty);
        },
        Node::Match { arms, .. } => lemma_arm_tails_number(n, arms, y, ty),
        _ => {
            reveal_with_fuel(tails, 4);
        },
    }
}

pub proof fn lemma_arm_tail_number(n: u64, arm: ArmNode, y: Seq<char>, ty: Ty)
    requires
        n + tails_arm(arm) <= u64::MAX,
    ensures
        n <= release_arm_tail(n, arm, y, ty).next <= n + tails_arm(arm),
        tails_arm(release_arm_tail(n, arm, y, ty).to) == tails_arm(arm),
    decreases arm,
{
    reveal(release_tails);
    reveal(release_arm_tail);
    reveal(release_arm_tails);
    lemma_tails_number(n, *arm.body, y, ty);
}

pub proof fn lemma_arm_tails_number(n: u64, s: Seq<ArmNode>, y: Seq<char>, ty: Ty)
    requires
        n + tails_arms(s) <= u64::MAX,
    ensures
        n <= release_arm_tails(n, s, y, ty).next <= n + tails_arms(s),
        tails_arms(release_arm_tails(n, s, y, ty).to) == tails_arms(s),
    decreases s,
{
    reveal(release_tails);
    reveal(release_arm_tail);
    reveal(release_arm_tails);
    if s.len() > 0 {
        lemma_arm_tails_number(n, s.drop_last(), y, ty);
        let init = release_arm_tails(n, s.drop_last(), y, ty);
        lemma_arm_tail_number(init.next, s.last(), y, ty);
        let last = release_arm_tail(init.next, s.last(), y, ty);
        assert(init.to.push(last.to).drop_last() =~= init.to);
    }
}

proof fn lemma_tails_range(n: u64, e: Node, y: Seq<char>, ty: Ty, m: u64)
    requires
        n + tails(e) <= u64::MAX,
        absent(e, temp_name(m)),
        is_outside(m, n as int, release_tails(n, e, y, ty).next as int),
    ensures
        absent(release_tails(n, e, y, ty).to, temp_name(m)),
    decreases e,
{
    reveal(release_tails);
    reveal(release_arm_tail);
    reveal(release_arm_tails);
    reveal(release_after);
    let x = temp_name(m);
    if temp_name(n) == x {
        lemma_temps_differ(n, m);
    }
    match e {
        Node::Let { name, value, next, .. } => {
            lemma_value_absent(*value, hands_on(*next, name), y, ty, x);
            lemma_tails_range(n, *next, y, ty, m);
        },
        Node::Release { next, .. } => lemma_tails_range(n, *next, y, ty, m),
        Node::If { then, els, .. } => {
            let t = release_tails(n, *then, y, ty);
            lemma_tails_number(n, *then, y, ty);
            lemma_tails_number(t.next, *els, y, ty);
            lemma_tails_range(n, *then, y, ty, m);
            lemma_tails_range(t.next, *els, y, ty, m);
        },
        Node::Match { arms, .. } => lemma_arm_tails_range(n, arms, y, ty, m),
        Node::Try { .. } => {
            lemma_value_absent(e, true, y, ty, x);
            let leaf = release_value_jumps(e, true, y, ty);
            assert(release_tails(n, e, y, ty) == release_after(n, leaf, y, ty)) by {
                reveal(release_jumps);
                reveal(release_arm_jump);
                reveal(release_arm_jumps);
            }
            reveal_with_fuel(absent, 4);
        },
        _ => {
            reveal_with_fuel(absent, 4);
        },
    }
}

proof fn lemma_arm_tail_range(n: u64, arm: ArmNode, y: Seq<char>, ty: Ty, m: u64)
    requires
        n + tails_arm(arm) <= u64::MAX,
        arm_absent(arm, temp_name(m)),
        is_outside(m, n as int, release_arm_tail(n, arm, y, ty).next as int),
    ensures
        arm_absent(release_arm_tail(n, arm, y, ty).to, temp_name(m)),
    decreases arm,
{
    reveal(release_tails);
    reveal(release_arm_tail);
    reveal(release_arm_tails);
    lemma_tails_range(n, *arm.body, y, ty, m);
}

proof fn lemma_arm_tails_range(n: u64, s: Seq<ArmNode>, y: Seq<char>, ty: Ty, m: u64)
    requires
        n + tails_arms(s) <= u64::MAX,
        arms_absent(s, temp_name(m)),
        is_outside(m, n as int, release_arm_tails(n, s, y, ty).next as int),
    ensures
        arms_absent(release_arm_tails(n, s, y, ty).to, temp_name(m)),
    decreases s,
{
    reveal(release_tails);
    reveal(release_arm_tail);
    reveal(release_arm_tails);
    if s.len() > 0 {
        let init = release_arm_tails(n, s.drop_last(), y, ty);
        lemma_arm_tails_number(n, s.drop_last(), y, ty);
        lemma_arm_tail_number(init.next, s.last(), y, ty);
        lemma_arm_tails_range(n, s.drop_last(), y, ty, m);
        lemma_arm_tail_range(init.next, s.last(), y, ty, m);
        let last = release_arm_tail(init.next, s.last(), y, ty);
        assert(init.to.push(last.to).drop_last() =~= init.to);
    }
}

/// The name of a `let` in a range, where the range ends at `n`.
pub proof fn lemma_older(e: Node, lo: int, n: u64) -> (m: u64)
    requires
        e matches Node::Let { name, .. } && is_temp(name),
        ranged(e, lo, n as int),
    ensures
        m < n,
        e matches Node::Let { name, .. } && name == temp_name(m),
{
    if let Node::Let { name, .. } = e {
        let m = choose|m: u64| name == #[trigger] temp_name(m);
        if is_outside(m, lo, n as int) {
            assert(absent(e, temp_name(m)));
        }
        m
    } else {
        0
    }
}

proof fn lemma_tails_apart(n: u64, e: Node, y: Seq<char>, ty: Ty, lo: int)
    requires
        scopes_apart(e),
        ranged(e, lo, n as int),
        n + tails(e) <= u64::MAX,
    ensures
        scopes_apart(release_tails(n, e, y, ty).to),
    decreases e,
{
    reveal(release_tails);
    reveal(release_arm_tail);
    reveal(release_arm_tails);
    reveal(release_after);
    match e {
        Node::Let { name, value_ty, value, next } => {
            assert(ranged(*next, lo, n as int)) by {
                assert forall|m: u64| is_outside(m, lo, n as int) implies absent(
                    *next,
                    #[trigger] temp_name(m),
                ) by {
                    assert(absent(e, temp_name(m)));
                }
            }
            if heap(value_ty) {
                if is_temp(name) {
                    let m = lemma_older(e, lo, n);
                    lemma_tails_number(n, *next, y, ty);
                    lemma_tails_range(n, *next, y, ty, m);
                } else {
                    lemma_tails_absent(n, *next, y, ty, name);
                }
            }
            lemma_value_apart(*value, hands_on(*next, name), y, ty);
            lemma_tails_apart(n, *next, y, ty, lo);
        },
        Node::Release { next, .. } => {
            assert forall|m: u64| is_outside(m, lo, n as int) implies absent(
                *next,
                #[trigger] temp_name(m),
            ) by {
                assert(absent(e, temp_name(m)));
            }
            lemma_tails_apart(n, *next, y, ty, lo);
        },
        Node::If { then, els, .. } => {
            let t = release_tails(n, *then, y, ty);
            lemma_tails_number(n, *then, y, ty);
            assert forall|m: u64| is_outside(m, lo, n as int) implies absent(
                *then,
                #[trigger] temp_name(m),
            ) by {
                assert(absent(e, temp_name(m)));
            }
            assert forall|m: u64| is_outside(m, lo, t.next as int) implies absent(
                *els,
                #[trigger] temp_name(m),
            ) by {
                assert(absent(e, temp_name(m)));
            }
            lemma_tails_apart(n, *then, y, ty, lo);
            lemma_tails_apart(t.next, *els, y, ty, lo);
        },
        Node::Match { arms, .. } => {
            assert forall|m: u64| is_outside(m, lo, n as int) implies arms_absent(
                arms,
                #[trigger] temp_name(m),
            ) by {
                assert(absent(e, temp_name(m)));
            }
            lemma_arm_tails_apart(n, arms, y, ty, lo);
        },
        Node::Try { .. } => {
            lemma_value_apart(e, true, y, ty);
            let leaf = release_value_jumps(e, true, y, ty);
            assert(release_tails(n, e, y, ty) == release_after(n, leaf, y, ty)) by {
                reveal(release_jumps);
                reveal(release_arm_jump);
                reveal(release_arm_jumps);
            }
            reveal_with_fuel(scopes_apart, 4);
            reveal_with_fuel(absent, 3);
        },
        _ => {
            reveal_with_fuel(scopes_apart, 4);
            reveal_with_fuel(absent, 3);
        },
    }
}

proof fn lemma_arm_tail_apart(n: u64, arm: ArmNode, y: Seq<char>, ty: Ty, lo: int)
    requires
        arm_scope_apart(arm),
        arm_ranged(arm, lo, n as int),
        n + tails_arm(arm) <= u64::MAX,
    ensures
        arm_scope_apart(release_arm_tail(n, arm, y, ty).to),
    decreases arm,
{
    reveal(release_tails);
    reveal(release_arm_tail);
    reveal(release_arm_tails);
    assert forall|m: u64| is_outside(m, lo, n as int) implies absent(
        *arm.body,
        #[trigger] temp_name(m),
    ) by {
        assert(arm_absent(arm, temp_name(m)));
    }
    lemma_tails_apart(n, *arm.body, y, ty, lo);
}

proof fn lemma_arm_tails_apart(n: u64, s: Seq<ArmNode>, y: Seq<char>, ty: Ty, lo: int)
    requires
        arm_scopes_apart(s),
        arms_ranged(s, lo, n as int),
        n + tails_arms(s) <= u64::MAX,
    ensures
        arm_scopes_apart(release_arm_tails(n, s, y, ty).to),
    decreases s,
{
    reveal(release_tails);
    reveal(release_arm_tail);
    reveal(release_arm_tails);
    if s.len() > 0 {
        let front = s.drop_last();
        let init = release_arm_tails(n, front, y, ty);
        lemma_arm_tails_number(n, front, y, ty);
        assert forall|m: u64| is_outside(m, lo, n as int) implies arms_absent(
            front,
            #[trigger] temp_name(m),
        ) by {
            assert(arms_absent(s, temp_name(m)));
        }
        assert forall|m: u64| is_outside(m, lo, init.next as int) implies arm_absent(
            s.last(),
            #[trigger] temp_name(m),
        ) by {
            assert(arms_absent(s, temp_name(m)));
        }
        lemma_arm_tails_apart(n, front, y, ty, lo);
        lemma_arm_tail_apart(init.next, s.last(), y, ty, lo);
        let last = release_arm_tail(init.next, s.last(), y, ty);
        assert(init.to.push(last.to).drop_last() =~= init.to);
    }
}

/// Whether a rewritten expression binds temporaries from `n` on, up to the next
/// one, and nothing in a scope again.
pub open spec fn is_fresh(r: Rewritten<Node>, n: int, most: int) -> bool {
    &&& n <= r.next <= most
    &&& ranged(r.to, n, r.next as int)
    &&& scopes_apart(r.to)
}

/// Releases at the tails of an expression whose temporaries are below `n`.
pub proof fn lemma_tails_fresh(n: u64, e: Node, y: Seq<char>, ty: Ty, lo: int)
    requires
        scopes_apart(e),
        ranged(e, lo, n as int),
        lo <= n,
        n + tails(e) <= u64::MAX,
    ensures
        is_fresh(release_tails(n, e, y, ty), lo, n + tails(e)),
        n <= release_tails(n, e, y, ty).next,
        tails(release_tails(n, e, y, ty).to) == tails(e),
{
    let r = release_tails(n, e, y, ty);
    lemma_tails_number(n, e, y, ty);
    lemma_tails_apart(n, e, y, ty, lo);
    assert forall|m: u64| is_outside(m, lo, r.next as int) implies absent(
        r.to,
        #[trigger] temp_name(m),
    ) by {
        assert(is_outside(m, lo, n as int));
        assert(absent(e, temp_name(m)));
        lemma_tails_range(n, e, y, ty, m);
    }
}

/// Whether hoisted operands are temporaries with numbers in a range, and so are
/// those that their values bind.
pub open spec fn hoists_fresh(s: Seq<Hoist>, lo: int, hi: int) -> bool {
    forall|i: int|
        0 <= i < s.len() ==> is_numbered((#[trigger] s[i]).name, lo, hi) && ranged(
            s[i].value,
            lo,
            hi,
        ) && scopes_apart(s[i].value)
}

/// Whether nothing in the scope of a hoisted operand, up to the last one, is bound
/// under its name.
pub open spec fn hoists_apart(s: Seq<Hoist>) -> bool {
    forall|i: int, j: int|
        0 <= i < j < s.len() ==> (#[trigger] s[i]).name != (#[trigger] s[j]).name && absent(
            s[j].value,
            s[i].name,
        )
}

/// Whether `e` binds no hoisted operand.
pub open spec fn hoists_absent(s: Seq<Hoist>, e: Node) -> bool {
    forall|i: int| 0 <= i < s.len() ==> absent(e, (#[trigger] s[i]).name)
}

proof fn lemma_bind_fresh(s: Seq<Hoist>, body: Node, lo: int, hi: int)
    requires
        hoists_fresh(s, lo, hi),
        hoists_apart(s),
        hoists_absent(s, body),
        scopes_apart(body),
        ranged(body, lo, hi),
    ensures
        scopes_apart(bind_all(s, body)),
        ranged(bind_all(s, body), lo, hi),
        tails(bind_all(s, body)) == tails(body),
    decreases s.len(),
{
    reveal(bind_all);
    if s.len() > 0 {
        let h = s[s.len() - 1];
        let front = s.drop_last();
        let inner = Node::Let {
            name: h.name,
            value_ty: h.ty,
            value: Box::new(h.value),
            next: Box::new(body),
        };
        assert(hoists_fresh(front, lo, hi)) by {
            assert forall|i: int| 0 <= i < front.len() implies is_numbered(
                (#[trigger] front[i]).name,
                lo,
                hi,
            ) && ranged(front[i].value, lo, hi) && scopes_apart(front[i].value) by {
                assert(front[i] == s[i]);
            }
        }
        assert(hoists_apart(front)) by {
            assert forall|i: int, j: int| 0 <= i < j < front.len() implies (
            #[trigger] front[i]).name != (#[trigger] front[j]).name && absent(
                front[j].value,
                front[i].name,
            ) by {
                assert(front[i] == s[i] && front[j] == s[j]);
            }
        }
        assert(hoists_absent(front, inner)) by {
            assert forall|i: int| 0 <= i < front.len() implies absent(
                inner,
                (#[trigger] front[i]).name,
            ) by {
                assert(front[i] == s[i]);
                assert(s[i].name != h.name && absent(h.value, s[i].name));
                assert(absent(body, s[i].name));
            }
        }
        assert(absent(body, h.name));
        assert(scopes_apart(inner));
        assert(ranged(inner, lo, hi)) by {
            assert forall|m: u64| is_outside(m, lo, hi) implies absent(
                inner,
                #[trigger] temp_name(m),
            ) by {
                let k = choose|k: u64| lo <= k < hi && h.name == #[trigger] temp_name(k);
                if h.name == temp_name(m) {
                    lemma_temps_differ(k, m);
                }
                assert(absent(h.value, temp_name(m)));
                assert(absent(body, temp_name(m)));
            }
        }
        lemma_bind_fresh(front, inner, lo, hi);
    }
}

proof fn lemma_release_fresh(s: Seq<Hoist>, body: Node)
    requires
        scopes_apart(body),
    ensures
        scopes_apart(release_all(s, body)),
        tails(release_all(s, body)) == tails(body),
    decreases s.len(),
{
    reveal(release_all);
    if s.len() > 0 {
        lemma_release_fresh(s.drop_last(), body);
    }
}

proof fn lemma_wrap_fresh(n: u64, s: Seq<Hoist>, node: Node, lo: int)
    requires
        hoists_fresh(s, lo, n as int),
        hoists_apart(s),
        hoists_absent(s, node),
        scopes_apart(node),
        ranged(node, lo, n as int),
        tails(node) == 1,
        lo <= n < u64::MAX,
    ensures
        is_fresh(wrap_node(n, s, node), lo, n + 1),
        n <= wrap_node(n, s, node).next,
        tails(wrap_node(n, s, node).to) == 1,
{
    reveal(wrap_node);
    if any_release(s) {
        let name = temp_name(n);
        let ty = node_ty(node);
        let var = Node::Var { name, ty };
        let released = release_all(s, var);
        let inner = Node::Let {
            name,
            value_ty: ty,
            value: Box::new(node),
            next: Box::new(released),
        };
        assert(scopes_apart(var) && tails(var) == 1);
        lemma_release_fresh(s, var);
        assert forall|x: Seq<char>| #[trigger] absent(released, x) by {
            assert(absent(var, x));
            lemma_release_absent(s, var, x);
        }
        assert(absent(released, name));
        assert(scopes_apart(inner));
        let hi = n + 1;
        assert forall|i: int| 0 <= i < s.len() implies is_numbered(
            (#[trigger] s[i]).name,
            lo,
            hi,
        ) && ranged(s[i].value, lo, hi) && scopes_apart(s[i].value) by {
            let k = choose|k: u64| lo <= k < n && s[i].name == #[trigger] temp_name(k);
            assert(lo <= k < hi && s[i].name == temp_name(k));
            assert forall|m: u64| is_outside(m, lo, hi) implies absent(
                s[i].value,
                #[trigger] temp_name(m),
            ) by {
                assert(is_outside(m, lo, n as int));
            }
        }
        assert(hoists_absent(s, inner)) by {
            assert forall|i: int| 0 <= i < s.len() implies absent(
                inner,
                (#[trigger] s[i]).name,
            ) by {
                let k = choose|k: u64| lo <= k < n && s[i].name == #[trigger] temp_name(k);
                if s[i].name == name {
                    lemma_temps_differ(k, n);
                }
                assert(absent(node, s[i].name));
                assert(absent(released, s[i].name));
            }
        }
        assert(ranged(inner, lo, hi)) by {
            assert forall|m: u64| is_outside(m, lo, hi) implies absent(
                inner,
                #[trigger] temp_name(m),
            ) by {
                if name == temp_name(m) {
                    lemma_temps_differ(n, m);
                }
                assert(is_outside(m, lo, n as int));
                assert(absent(node, temp_name(m)));
                assert(absent(released, temp_name(m)));
            }
        }
        lemma_bind_fresh(s, inner, lo, hi);
    } else {
        lemma_bind_fresh(s, node, lo, n as int);
    }
}

pub proof fn lemma_wider(e: Node, lo: int, hi: int, a: int, b: int)
    requires
        ranged(e, lo, hi),
        a <= lo,
        hi <= b,
    ensures
        ranged(e, a, b),
{
    assert forall|m: u64| is_outside(m, a, b) implies absent(e, #[trigger] temp_name(m)) by {
        assert(is_outside(m, lo, hi));
    }
}

proof fn lemma_wider_number(name: Seq<char>, lo: int, hi: int, a: int, b: int)
    requires
        is_numbered(name, lo, hi),
        a <= lo,
        hi <= b,
    ensures
        is_numbered(name, a, b),
{
    let k = choose|k: u64| lo <= k < hi && name == #[trigger] temp_name(k);
    assert(a <= k < b && name == temp_name(k));
}

/// Whether rewritten operands take temporaries from `n` on, up to `next`, none of
/// which is bound again where it is visible.
pub open spec fn operands_fresh(hoisted: Seq<Hoist>, ops: Seq<Node>, n: int, next: int) -> bool {
    &&& hoists_fresh(hoisted, n, next)
    &&& hoists_apart(hoisted)
    &&& forall|j: int|
        0 <= j < ops.len() ==> ranged(#[trigger] ops[j], n, next) && scopes_apart(ops[j])
            && hoists_absent(hoisted, ops[j])
}

/// One more operand.
proof fn lemma_push_fresh(
    hoisted: Seq<Hoist>,
    ops: Seq<Node>,
    h: Option<Hoist>,
    op: Node,
    n: int,
    mid: int,
    next: int,
)
    requires
        operands_fresh(hoisted, ops, n, mid),
        n <= mid <= next,
        h matches Some(h) ==> is_numbered(h.name, mid, next) && ranged(h.value, mid, next)
            && scopes_apart(h.value) && op is Var,
        ranged(op, mid, next),
        scopes_apart(op),
    ensures
        operands_fresh(add_hoist(hoisted, h), ops.push(op), n, next),
{
    let all = add_hoist(hoisted, h);
    let k = hoisted.len() as int;
    assert forall|i: int| 0 <= i < all.len() implies is_numbered(
        (#[trigger] all[i]).name,
        n,
        next,
    ) && ranged(all[i].value, n, next) && scopes_apart(all[i].value) by {
        if i < k {
            assert(all[i] == hoisted[i]);
            lemma_wider(all[i].value, n, mid, n, next);
            lemma_wider_number(all[i].name, n, mid, n, next);
        } else {
            lemma_wider(all[i].value, mid, next, n, next);
            lemma_wider_number(all[i].name, mid, next, n, next);
        }
    }
    assert forall|i: int, j: int| 0 <= i < j < all.len() implies (#[trigger] all[i]).name != (
    #[trigger] all[j]).name && absent(all[j].value, all[i].name) by {
        assert(all[i] == hoisted[i]);
        if j < k {
            assert(all[j] == hoisted[j]);
        } else {
            lemma_not_in_range(all[j].value, mid, next, all[i].name, n, mid);
            let a = choose|a: u64| n <= a < mid && all[i].name == #[trigger] temp_name(a);
            let b = choose|b: u64| mid <= b < next && all[j].name == #[trigger] temp_name(b);
            if all[i].name == all[j].name {
                lemma_temps_differ(a, b);
            }
        }
    }
    let every = ops.push(op);
    assert forall|j: int| 0 <= j < every.len() implies ranged(#[trigger] every[j], n, next)
        && scopes_apart(every[j]) && hoists_absent(all, every[j]) by {
        if j < ops.len() {
            assert(every[j] == ops[j]);
            lemma_wider(ops[j], n, mid, n, next);
            assert forall|i: int| 0 <= i < all.len() implies absent(
                every[j],
                (#[trigger] all[i]).name,
            ) by {
                if i < k {
                    assert(all[i] == hoisted[i]);
                } else {
                    lemma_not_in_range(ops[j], n, mid, all[i].name, mid, next);
                }
            }
        } else {
            lemma_wider(op, mid, next, n, next);
            assert forall|i: int| 0 <= i < all.len() implies absent(
                every[j],
                (#[trigger] all[i]).name,
            ) by {
                if i < k {
                    assert(all[i] == hoisted[i]);
                    lemma_not_in_range(op, mid, next, all[i].name, n, mid);
                }
            }
        }
    }
}

proof fn lemma_var_fresh(e: Node, lo: int, hi: int)
    requires
        e is Var || e is String || e is FunctionRef,
    ensures
        ranged(e, lo, hi),
        scopes_apart(e),
{
}

/// Whether a rewritten operand takes temporaries from `n` on, up to the next one.
pub open spec fn operand_fresh(o: Operand, n: int, most: int) -> bool {
    &&& n <= o.next <= most
    &&& o.hoist matches Some(h) ==> is_numbered(h.name, n, o.next as int) && ranged(
        h.value,
        n,
        o.next as int,
    ) && scopes_apart(h.value) && o.op is Var
    &&& ranged(o.op, n, o.next as int)
    &&& scopes_apart(o.op)
}

proof fn lemma_hoisted_fresh(v: Rewritten<Node>, ty: Ty, release: bool, n: int, most: int)
    requires
        is_fresh(v, n, most),
        most < u64::MAX,
    ensures
        operand_fresh(hoisted_operand(v.next, v.to, ty, release), n, most + 1),
{
    let o = hoisted_operand(v.next, v.to, ty, release);
    lemma_wider(v.to, n, v.next as int, n, v.next + 1);
    lemma_var_fresh(o.op, n, o.next as int);
    assert(n <= v.next < o.next && temp_name(v.next) == temp_name(v.next));
}

#[verifier::rlimit(40)]
pub proof fn lemma_operand_fresh(n: u64, e: Node, i: int, vis: Seq<Seq<char>>)
    requires
        0 <= i < operands_of(e).len(),
        is_bare(operands_of(e)[i], vis),
        n + numbers(operands_of(e)[i]) + 1 <= u64::MAX,
    ensures
        operand_fresh(rewrite_operand(n, e, i), n as int, n + numbers(operands_of(e)[i]) + 1),
    decreases e, 0nat,
{
    let arg = operands_of(e)[i];
    let ty = node_ty(arg);
    lemma_owned_fresh(n, arg, vis);
    let v = own(n, arg);
    let most = n + numbers(arg);
    lemma_hoisted_fresh(v, ty, true, n as int, most);
    let o = rewrite_operand(n, e, i);
    if needs_release(e, i) {
        assert(o == hoisted_operand(v.next, v.to, ty, true));
    } else {
        let kept = if takes_ownership(e, i) || !heap(ty) {
            v
        } else {
            Rewritten { next: n, to: arg }
        };
        if arg is Var || arg is String {
            lemma_var_fresh(arg, n as int, n as int);
        }
        assert(is_fresh(kept, n as int, most));
        lemma_hoisted_fresh(kept, ty, false, n as int, most);
        if o.hoist is Some {
            assert(o == hoisted_operand(kept.next, kept.to, ty, false));
        } else {
            assert(o.op == kept.to && o.next == kept.next);
        }
    }
}

pub proof fn lemma_operands_fresh(n: u64, e: Node, k: nat, vis: Seq<Seq<char>>)
    requires
        k <= operands_of(e).len(),
        forall|i: int|
            0 <= i < operands_of(e).len() ==> is_bare(#[trigger] operands_of(e)[i], vis),
        n + numbers_all(operands_of(e).take(k as int)) <= u64::MAX,
    ensures
        n <= rewrite_operands(n, e, k).next <= n + numbers_all(operands_of(e).take(k as int)),
        rewrite_operands(n, e, k).ops.len() == k,
        operands_fresh(
            rewrite_operands(n, e, k).hoisted,
            rewrite_operands(n, e, k).ops,
            n as int,
            rewrite_operands(n, e, k).next as int,
        ),
    decreases e, k,
{
    if k > 0 {
        let s = operands_of(e);
        assert(s.take(k as int).drop_last() =~= s.take(k - 1));
        assert(s.take(k as int).last() == s[k - 1]);
        lemma_operands_fresh(n, e, (k - 1) as nat, vis);
        let init = rewrite_operands(n, e, (k - 1) as nat);
        assert(is_bare(s[k - 1], vis));
        lemma_operand_fresh(init.next, e, k - 1, vis);
        let o = rewrite_operand(init.next, e, k - 1);
        lemma_push_fresh(
            init.hoisted,
            init.ops,
            o.hoist,
            o.op,
            n as int,
            init.next as int,
            o.next as int,
        );
    }
}

pub proof fn lemma_atom_fresh(n: u64, arg: Node, vis: Seq<Seq<char>>)
    requires
        is_bare(arg, vis),
        n + numbers(arg) + 1 <= u64::MAX,
    ensures
        operand_fresh(atomize_one(n, arg), n as int, n + numbers(arg) + 1),
    decreases arg, operands_of(arg).len() + 4,
{
    lemma_owned_fresh(n, arg, vis);
    lemma_hoisted_fresh(own(n, arg), node_ty(arg), false, n as int, n + numbers(arg));
}

pub proof fn lemma_atoms_fresh(n: u64, args: Seq<Node>, vis: Seq<Seq<char>>)
    requires
        unmanaged_all(args),
        apart_all(args, vis),
        n + numbers_all(args) <= u64::MAX,
    ensures
        n <= atomize(n, args).next <= n + numbers_all(args),
        operands_fresh(
            atomize(n, args).hoisted,
            atomize(n, args).ops,
            n as int,
            atomize(n, args).next as int,
        ),
    decreases args, 0nat,
{
    if args.len() > 0 {
        lemma_atoms_fresh(n, args.drop_last(), vis);
        let init = atomize(n, args.drop_last());
        lemma_atom_fresh(init.next, args.last(), vis);
        let o = atomize_one(init.next, args.last());
        lemma_push_fresh(
            init.hoisted,
            init.ops,
            o.hoist,
            o.op,
            n as int,
            init.next as int,
            o.next as int,
        );
    }
}

/// Whether rewritten arms bind temporaries from `n` on, up to the next one, and
/// nothing in a scope again.
pub open spec fn arms_fresh(r: Rewritten<Seq<ArmNode>>, n: int, most: int) -> bool {
    &&& n <= r.next <= most
    &&& arms_ranged(r.to, n, r.next as int)
    &&& arm_scopes_apart(r.to)
}

/// Whether a rewritten arm binds temporaries from `n` on, up to the next one, and
/// nothing in a scope again.
pub open spec fn arm_fresh(r: Rewritten<ArmNode>, n: int, most: int) -> bool {
    &&& n <= r.next <= most
    &&& arm_ranged(r.to, n, r.next as int)
    &&& arm_scope_apart(r.to)
}

proof fn lemma_push_arm(init: Rewritten<Seq<ArmNode>>, last: Rewritten<ArmNode>, n: int, a: int, b: int)
    requires
        arms_fresh(init, n, a),
        arm_fresh(last, init.next as int, b),
    ensures
        arms_fresh(Rewritten { next: last.next, to: init.to.push(last.to) }, n, b),
        tails_arms(init.to.push(last.to)) == tails_arms(init.to) + tails_arm(last.to),
{
    let all = init.to.push(last.to);
    assert(all.drop_last() =~= init.to);
    assert forall|m: u64| is_outside(m, n, last.next as int) implies arms_absent(
        all,
        #[trigger] temp_name(m),
    ) by {
        assert(is_outside(m, n, init.next as int));
        assert(arms_absent(init.to, temp_name(m)));
        assert(is_outside(m, init.next as int, last.next as int));
        assert(arm_absent(last.to, temp_name(m)));
    }
}

pub proof fn lemma_match_arm_fresh(n: u64, arm: ArmNode, vis: Seq<Seq<char>>)
    requires
        unmanaged_arm(arm),
        apart_arm(arm, vis),
        n + numbers_arm(arm) <= u64::MAX,
    ensures
        arm_fresh(own_match_arm(n, arm), n as int, n + numbers_arm(arm)),
        tails_arm(own_match_arm(n, arm).to) == tails_arm(arm),
    decreases arm, 0nat,
{
    let inner = pattern_vis(vis, arm.pattern);
    let r = own_match_arm(n, arm);
    match arm.guard {
        Some(guard) => {
            let g = own(n, *guard);
            lemma_owned_fresh(n, *guard, inner);
            lemma_owned_fresh(g.next, *arm.body, inner);
            let b = own(g.next, *arm.body);
            lemma_wider(g.to, n as int, g.next as int, n as int, r.next as int);
            lemma_wider(b.to, g.next as int, r.next as int, n as int, r.next as int);
        },
        None => lemma_owned_fresh(n, *arm.body, inner),
    }
}

pub proof fn lemma_match_arms_fresh(n: u64, s: Seq<ArmNode>, vis: Seq<Seq<char>>)
    requires
        unmanaged_arms(s),
        apart_arms(s, vis),
        n + numbers_arms(s) <= u64::MAX,
    ensures
        arms_fresh(own_match_arms(n, s), n as int, n + numbers_arms(s)),
        tails_arms(own_match_arms(n, s).to) == tails_arms(s),
    decreases s, 0nat,
{
    if s.len() > 0 {
        lemma_match_arms_fresh(n, s.drop_last(), vis);
        let init = own_match_arms(n, s.drop_last());
        lemma_match_arm_fresh(init.next, s.last(), vis);
        let last = own_match_arm(init.next, s.last());
        lemma_push_arm(init, last, n as int, n + numbers_arms(s.drop_last()), n + numbers_arms(s));
    }
}

pub proof fn lemma_catch_arm_fresh(n: u64, arm: ArmNode, err: Seq<char>, vis: Seq<Seq<char>>)
    requires
        unmanaged_arm(arm),
        apart_arm(arm, vis),
        n + numbers_arm(arm) + tails_arm(arm) <= u64::MAX,
    ensures
        arm_fresh(own_catch_arm(n, arm, err), n as int, n + numbers_arm(arm) + tails_arm(arm)),
        tails_arm(own_catch_arm(n, arm, err).to) == tails_arm(arm),
    decreases arm, 0nat,
{
    let inner = pattern_vis(vis, arm.pattern);
    let b = own(n, *arm.body);
    let r = own_catch_arm(n, arm, err);
    lemma_owned_fresh(n, *arm.body, inner);
    match arm.guard {
        Some(guard) => {
            lemma_owned_fresh(b.next, *guard, inner);
            let g = own(b.next, *guard);
            lemma_wider(b.to, n as int, b.next as int, n as int, g.next as int);
            lemma_tails_fresh(g.next, b.to, err, caught_ty(), n as int);
            lemma_wider(g.to, b.next as int, g.next as int, n as int, r.next as int);
        },
        None => lemma_tails_fresh(b.next, b.to, err, caught_ty(), n as int),
    }
}

pub proof fn lemma_catch_arms_fresh(n: u64, s: Seq<ArmNode>, err: Seq<char>, vis: Seq<Seq<char>>)
    requires
        unmanaged_arms(s),
        apart_arms(s, vis),
        n + numbers_arms(s) + tails_arms(s) <= u64::MAX,
    ensures
        arms_fresh(own_catch_arms(n, s, err), n as int, n + numbers_arms(s) + tails_arms(s)),
    decreases s, 0nat,
{
    if s.len() > 0 {
        let front = s.drop_last();
        lemma_catch_arms_fresh(n, front, err, vis);
        let init = own_catch_arms(n, front, err);
        lemma_catch_arm_fresh(init.next, s.last(), err, vis);
        let last = own_catch_arm(init.next, s.last(), err);
        lemma_push_arm(
            init,
            last,
            n as int,
            n + numbers_arms(front) + tails_arms(front),
            n + numbers_arms(s) + tails_arms(s),
        );
    }
}

proof fn lemma_all_apart(s: Seq<Node>)
    requires
        forall|i: int| 0 <= i < s.len() ==> scopes_apart(#[trigger] s[i]),
    ensures
        all_scopes_apart(s),
    decreases s.len(),
{
    if s.len() > 0 {
        let t = s.drop_last();
        assert forall|i: int| 0 <= i < t.len() implies scopes_apart(#[trigger] t[i]) by {
            assert(t[i] == s[i]);
        }
        lemma_all_apart(t);
        assert(scopes_apart(s[s.len() - 1]));
    }
}

proof fn lemma_call_fresh(n: u64, e: Node, vis: Seq<Seq<char>>)
    requires
        e is Call,
        is_bare(e, vis),
        n + numbers(e) <= u64::MAX,
    ensures
        is_fresh(own_call(n, e), n as int, n + numbers(e)),
        tails(own_call(n, e).to) == 1,
    decreases e, operands_of(e).len() + 2,
{
    if let Node::Call { callee, args, ret } = e {
        lemma_all_bare(args, vis);
        let r = rewrite_operands(n, e, args.len());
        assert(args.take(args.len() as int) =~= args);
        lemma_operands_fresh(n, e, args.len(), vis);
        lemma_all_apart(r.ops);
        if *callee is FunctionRef || *callee is Var {
            let direct = Node::Call { callee, args: r.ops, ret };
            lemma_call_of(direct, r.hoisted, n as int, r.next as int);
            lemma_wrap_fresh(r.next, r.hoisted, direct, n as int);
        } else {
            let ty = node_ty(*callee);
            let v = own(r.next, *callee);
            lemma_owned_fresh(r.next, *callee, vis);
            let name = temp_name(v.next);
            let h = Hoist { name, ty, value: v.to, release: true };
            let all = seq![h] + r.hoisted;
            let hi = v.next + 1;
            let called = Node::Var { name, ty };
            let call = Node::Call { callee: Box::new(called), args: r.ops, ret };
            assert(is_numbered(name, v.next as int, hi));
            lemma_call_hoists(n, e, vis);
            lemma_call_of(call, r.hoisted, n as int, r.next as int);
            lemma_wider(call, n as int, r.next as int, n as int, hi);
            assert(hoists_absent(all, call)) by {
                assert forall|i: int| 0 <= i < all.len() implies absent(
                    call,
                    (#[trigger] all[i]).name,
                ) by {
                    if i == 0 {
                        lemma_not_in_range(call, n as int, r.next as int, name, v.next as int, hi);
                    } else {
                        assert(all[i] == r.hoisted[i - 1]);
                    }
                }
            }
            lemma_wrap_fresh(next_count(v.next), all, call, n as int);
        }
    }
}

/// The operands that a call of an expression hoists.
pub proof fn lemma_call_hoists(n: u64, e: Node, vis: Seq<Seq<char>>)
    requires
        e matches Node::Call { callee, .. } && !(*callee is FunctionRef || *callee is Var),
        is_bare(e, vis),
        n + numbers(e) <= u64::MAX,
    ensures
        e matches Node::Call { callee, args, .. } && ({
            let r = rewrite_operands(n, e, args.len());
            let v = own(r.next, *callee);
            let h = Hoist {
                name: temp_name(v.next),
                ty: node_ty(*callee),
                value: v.to,
                release: true,
            };
            &&& hoists_fresh(seq![h] + r.hoisted, n as int, v.next + 1)
            &&& hoists_apart(seq![h] + r.hoisted)
        }),
    decreases e, operands_of(e).len() + 1,
{
    if let Node::Call { callee, args, ret } = e {
        lemma_all_bare(args, vis);
        let r = rewrite_operands(n, e, args.len());
        assert(args.take(args.len() as int) =~= args);
        lemma_operands_fresh(n, e, args.len(), vis);
        let ty = node_ty(*callee);
        let v = own(r.next, *callee);
        lemma_owned_fresh(r.next, *callee, vis);
        let name = temp_name(v.next);
        let h = Hoist { name, ty, value: v.to, release: true };
        let all = seq![h] + r.hoisted;
        let hi = v.next + 1;
        assert(is_numbered(name, v.next as int, hi));
        assert(hoists_fresh(all, n as int, hi)) by {
            assert forall|i: int| 0 <= i < all.len() implies is_numbered(
                (#[trigger] all[i]).name,
                n as int,
                hi,
            ) && ranged(all[i].value, n as int, hi) && scopes_apart(all[i].value) by {
                if i == 0 {
                    lemma_wider(v.to, r.next as int, v.next as int, n as int, hi);
                    lemma_wider_number(name, v.next as int, hi, n as int, hi);
                } else {
                    let g = r.hoisted[i - 1];
                    assert(all[i] == g);
                    lemma_wider(g.value, n as int, r.next as int, n as int, hi);
                    lemma_wider_number(g.name, n as int, r.next as int, n as int, hi);
                }
            }
        }
        assert(hoists_apart(all)) by {
            assert forall|i: int, j: int| 0 <= i < j < all.len() implies (
            #[trigger] all[i]).name != (#[trigger] all[j]).name && absent(
                all[j].value,
                all[i].name,
            ) by {
                let g = r.hoisted[j - 1];
                assert(all[j] == g);
                if i == 0 {
                    lemma_not_in_range(
                        g.value,
                        n as int,
                        r.next as int,
                        name,
                        v.next as int,
                        hi,
                    );
                    let k = choose|k: u64| n <= k < r.next && g.name == #[trigger] temp_name(k);
                    if g.name == name {
                        lemma_temps_differ(k, v.next);
                    }
                } else {
                    assert(all[i] == r.hoisted[i - 1]);
                }
            }
        }
    }
}

/// A call of a name on rewritten operands.
proof fn lemma_call_of(call: Node, hoisted: Seq<Hoist>, lo: int, hi: int)
    requires
        call matches Node::Call { callee, args, .. } && (*callee is Var || *callee is FunctionRef)
            && operands_fresh(hoisted, args, lo, hi),
    ensures
        ranged(call, lo, hi),
        scopes_apart(call),
        hoists_absent(hoisted, call),
        tails(call) == 1,
{
    if let Node::Call { callee, args, .. } = call {
        lemma_var_fresh(*callee, lo, hi);
        lemma_all_apart(args);
        assert forall|m: u64| is_outside(m, lo, hi) implies absent(
            call,
            #[trigger] temp_name(m),
        ) by {
            let x = temp_name(m);
            assert forall|i: int| 0 <= i < args.len() implies absent(#[trigger] args[i], x) by {
                assert(ranged(args[i], lo, hi));
            }
            lemma_all_absent(args, x);
            assert(absent(*callee, x));
        }
        assert forall|i: int| 0 <= i < hoisted.len() implies absent(
            call,
            (#[trigger] hoisted[i]).name,
        ) by {
            let x = hoisted[i].name;
            assert forall|j: int| 0 <= j < args.len() implies absent(#[trigger] args[j], x) by {
                assert(hoists_absent(hoisted, args[j]));
            }
            lemma_all_absent(args, x);
            assert(absent(*callee, x));
        }
    }
}

/// A node over rewritten operands.
proof fn lemma_built_fresh(e: Node, hoisted: Seq<Hoist>, ops: Seq<Node>, lo: int, hi: int)
    requires
        ops.len() == operands_of(e).len(),
        operands_fresh(hoisted, ops, lo, hi),
        e is Intrinsic || e is Platform || e is Binary || e is Concat || e is Array
            || e is EnumValue || e is RecordValue || e is FieldAccess || e is CharFromCode
            || e is StringFromChar,
    ensures
        ranged(with_operands(e, ops), lo, hi),
        scopes_apart(with_operands(e, ops)),
        hoists_absent(hoisted, with_operands(e, ops)),
        tails(with_operands(e, ops)) == 1,
{
    let node = with_operands(e, ops);
    lemma_all_apart(ops);
    if ops.len() > 0 {
        assert(scopes_apart(ops[0]));
    }
    if ops.len() > 1 {
        assert(scopes_apart(ops[1]));
    }
    assert forall|m: u64| is_outside(m, lo, hi) implies absent(node, #[trigger] temp_name(m)) by {
        let x = temp_name(m);
        assert forall|i: int| 0 <= i < ops.len() implies absent(#[trigger] ops[i], x) by {
            assert(ranged(ops[i], lo, hi));
        }
        lemma_built_absent(e, ops, x);
    }
    assert forall|i: int| 0 <= i < hoisted.len() implies absent(
        node,
        (#[trigger] hoisted[i]).name,
    ) by {
        let x = hoisted[i].name;
        assert forall|j: int| 0 <= j < ops.len() implies absent(#[trigger] ops[j], x) by {
            assert(hoists_absent(hoisted, ops[j]));
        }
        lemma_built_absent(e, ops, x);
    }
}

pub proof fn lemma_operand_numbers(e: Node)
    requires
        e is Intrinsic || e is Platform || e is Binary || e is Concat || e is Array
            || e is EnumValue || e is RecordValue || e is FieldAccess || e is CharFromCode
            || e is StringFromChar,
    ensures
        numbers(e) == numbers_all(operands_of(e)) + 1,
        operands_of(e).take(operands_of(e).len() as int) == operands_of(e),
{
    let s = operands_of(e);
    assert(s.take(s.len() as int) =~= s);
    if s.len() > 0 && (e is Binary || e is Concat || e is FieldAccess || e is CharFromCode
        || e is StringFromChar) {
        assert(s.len() <= 2);
        if s.len() == 2 {
            assert(s.drop_last() =~= seq![s[0]]);
            assert(seq![s[0]].drop_last() =~= Seq::<Node>::empty());
            assert(numbers_all(Seq::<Node>::empty()) == 0);
            assert(seq![s[0]].last() == s[0]);
            assert(numbers_all(seq![s[0]]) == numbers(s[0]) + 1);
            assert(s.last() == s[1]);
        } else {
            assert(s.drop_last() =~= Seq::<Node>::empty());
            assert(numbers_all(Seq::<Node>::empty()) == 0);
            assert(s.last() == s[0]);
        }
    }
}

pub proof fn lemma_params_fresh(n: u64, params: Seq<Bind>, body: Node, lo: int)
    requires
        scopes_apart(body),
        ranged(body, lo, n as int),
        lo <= n,
        n + params.len() * tails(body) <= u64::MAX,
    ensures
        is_fresh(release_params(n, params, body), lo, n + params.len() * tails(body)),
        n <= release_params(n, params, body).next,
        tails(release_params(n, params, body).to) == tails(body),
    decreases params.len(),
{
    reveal(release_params);
    if params.len() > 0 {
        let front = params.drop_last();
        let t = tails(body);
        assert(params.len() * t == (params.len() - 1) * t + t) by (nonlinear_arith)
            requires
                params.len() > 0,
        ;
        assert(front.len() * t == (params.len() - 1) * t);
        lemma_params_fresh(n, front, body, lo);
        let init = release_params(n, front, body);
        let p = params.last();
        if heap(p.ty) {
            lemma_tails_fresh(init.next, init.to, p.name, p.ty, lo);
        }
    }
}

/// The owned form of an expression.
pub proof fn lemma_owned_fresh(n: u64, e: Node, vis: Seq<Seq<char>>)
    requires
        is_bare(e, vis),
        n + numbers(e) <= u64::MAX,
    ensures
        is_fresh(own(n, e), n as int, n + numbers(e)),
        tails(own(n, e).to) == tails(e),
    decreases e, operands_of(e).len() + 3,
{
    match e {
        Node::Var { .. } => {
            let to = own(n, e).to;
            assert(scopes_apart(e));
            assert(scopes_apart(to));
            assert forall|m: u64| is_outside(m, n as int, n as int) implies absent(
                to,
                #[trigger] temp_name(m),
            ) by {
                assert(absent(e, temp_name(m)));
            }
        },
        Node::Let { name, value_ty, value, next } => lemma_let_fresh(n, e, vis),
        Node::Call { .. } => {
            lemma_call_fresh(n, e, vis);
            assert(own(n, e) == own_call(n, e));
        },
        Node::TailSelfCall { args, ty } => {
            let r = atomize(n, args);
            lemma_atoms_fresh(n, args, vis);
            let call = Node::TailSelfCall { args: r.ops, ty };
            lemma_jump_of(call, r.hoisted, n as int, r.next as int);
            lemma_bind_fresh(r.hoisted, call, n as int, r.next as int);
        },
        Node::Intrinsic { .. } | Node::Platform { .. } | Node::Binary { .. } | Node::Concat { .. }
        | Node::Array { .. } | Node::EnumValue { .. } | Node::RecordValue { .. }
        | Node::FieldAccess { .. } | Node::CharFromCode(_) | Node::StringFromChar(_) => {
            lemma_taken_bare(e, vis);
            let k = operands_of(e).len();
            let r = rewrite_operands(n, e, k);
            lemma_operand_numbers(e);
            lemma_operands_fresh(n, e, k, vis);
            lemma_built_fresh(e, r.hoisted, r.ops, n as int, r.next as int);
            lemma_wrap_fresh(r.next, r.hoisted, with_operands(e, r.ops), n as int);
        },
        Node::If { cond, then, els, .. } => {
            let c = own(n, *cond);
            let t = own(c.next, *then);
            let f = own(t.next, *els);
            lemma_owned_fresh(n, *cond, vis);
            lemma_owned_fresh(c.next, *then, vis);
            lemma_owned_fresh(t.next, *els, vis);
            lemma_wider(c.to, n as int, c.next as int, n as int, f.next as int);
            lemma_wider(t.to, c.next as int, t.next as int, n as int, f.next as int);
            lemma_wider(f.to, t.next as int, f.next as int, n as int, f.next as int);
            let to = own(n, e).to;
            assert forall|m: u64| is_outside(m, n as int, f.next as int) implies absent(
                to,
                #[trigger] temp_name(m),
            ) by {
                assert(absent(c.to, temp_name(m)));
                assert(absent(t.to, temp_name(m)));
                assert(absent(f.to, temp_name(m)));
            }
        },
        Node::Match { .. } => lemma_match_fresh(n, e, vis),
        Node::Try { .. } => lemma_try_fresh(n, e, vis),
        Node::Question { value, .. } => {
            lemma_owned_fresh(n, *value, vis);
            let v = own(n, *value);
            let to = own(n, e).to;
            assert forall|m: u64| is_outside(m, n as int, v.next as int) implies absent(
                to,
                #[trigger] temp_name(m),
            ) by {
                assert(absent(v.to, temp_name(m)));
            }
        },
        Node::Throw { .. } => lemma_throw_fresh(n, e, vis),
        Node::Panic { message } => {
            if *message is Var {
                lemma_var_fresh(*message, n as int, n as int);
                assert forall|m: u64| is_outside(m, n as int, n as int) implies absent(
                    e,
                    #[trigger] temp_name(m),
                ) by {
                    assert(absent(*message, temp_name(m)));
                }
            } else {
                lemma_owned_fresh(n, *message, vis);
                let v = own(n, *message);
                let to = own(n, e).to;
                assert forall|m: u64| is_outside(m, n as int, v.next as int) implies absent(
                    to,
                    #[trigger] temp_name(m),
                ) by {
                    assert(absent(v.to, temp_name(m)));
                }
            }
        },
        Node::Fn { .. } => lemma_lambda_fresh(n, e, vis),
        _ => {},
    }
}

proof fn lemma_jump_of(call: Node, hoisted: Seq<Hoist>, lo: int, hi: int)
    requires
        call matches Node::TailSelfCall { args, .. } && operands_fresh(hoisted, args, lo, hi),
    ensures
        ranged(call, lo, hi),
        scopes_apart(call),
        hoists_absent(hoisted, call),
        tails(call) == 1,
{
    if let Node::TailSelfCall { args, .. } = call {
        lemma_all_apart(args);
        assert forall|m: u64| is_outside(m, lo, hi) implies absent(
            call,
            #[trigger] temp_name(m),
        ) by {
            let x = temp_name(m);
            assert forall|i: int| 0 <= i < args.len() implies absent(#[trigger] args[i], x) by {
                assert(ranged(args[i], lo, hi));
            }
            lemma_all_absent(args, x);
        }
        assert forall|i: int| 0 <= i < hoisted.len() implies absent(
            call,
            (#[trigger] hoisted[i]).name,
        ) by {
            let x = hoisted[i].name;
            assert forall|j: int| 0 <= j < args.len() implies absent(#[trigger] args[j], x) by {
                assert(hoists_absent(hoisted, args[j]));
            }
            lemma_all_absent(args, x);
        }
    }
}

proof fn lemma_let_fresh(n: u64, e: Node, vis: Seq<Seq<char>>)
    requires
        e is Let,
        is_bare(e, vis),
        n + numbers(e) <= u64::MAX,
    ensures
        is_fresh(own(n, e), n as int, n + numbers(e)),
        tails(own(n, e).to) == tails(e),
    decreases e, 0nat,
{
    if let Node::Let { name, value_ty, value, next } = e {
        let v = own(n, *value);
        let b = own(v.next, *next);
        let inner = vis.push(name);
        lemma_owned_fresh(n, *value, vis);
        lemma_owned_fresh(v.next, *next, inner);
        assert(inner[vis.len() as int] == name);
        visible_names_are_not_bound(*next, inner, name);
        lemma_owned_absent(v.next, *next, name);
        let r = own(n, e);
        if heap(value_ty) {
            lemma_tails_fresh(b.next, b.to, name, value_ty, v.next as int);
            lemma_tails_absent(b.next, b.to, name, value_ty, name);
        }
        if let Node::Let { next: scope, .. } = r.to {
            assert forall|m: u64| is_outside(m, n as int, r.next as int) implies absent(
                r.to,
                #[trigger] temp_name(m),
            ) by {
                assert(is_temp(temp_name(m)));
                assert(is_outside(m, n as int, v.next as int));
                assert(absent(v.to, temp_name(m)));
                assert(is_outside(m, v.next as int, r.next as int));
                assert(absent(*scope, temp_name(m)));
            }
        }
    }
}

proof fn lemma_match_fresh(n: u64, e: Node, vis: Seq<Seq<char>>)
    requires
        e is Match,
        is_bare(e, vis),
        n + numbers(e) <= u64::MAX,
    ensures
        is_fresh(own(n, e), n as int, n + numbers(e)),
        tails(own(n, e).to) == tails(e),
    decreases e, 0nat,
{
    if let Node::Match { scrutinee, arms, ty } = e {
        let a = own_match_arms(n, arms);
        lemma_match_arms_fresh(n, arms, vis);
        let r = own(n, e);
        assert(r == own_match(n, e));
        if *scrutinee is Var {
            lemma_var_fresh(*scrutinee, n as int, a.next as int);
            assert forall|m: u64| is_outside(m, n as int, a.next as int) implies absent(
                r.to,
                #[trigger] temp_name(m),
            ) by {
                assert(absent(*scrutinee, temp_name(m)));
                assert(arms_absent(a.to, temp_name(m)));
            }
        } else {
            let sty = node_ty(*scrutinee);
            let v = own(a.next, *scrutinee);
            lemma_owned_fresh(a.next, *scrutinee, vis);
            let name = temp_name(v.next);
            let k = next_count(v.next);
            let t = release_arm_tails(k, a.to, name, sty);
            lemma_arm_tails_number(k, a.to, name, sty);
            assert forall|m: u64| is_outside(m, n as int, k as int) implies arms_absent(
                a.to,
                #[trigger] temp_name(m),
            ) by {
                assert(is_outside(m, n as int, a.next as int));
            }
            lemma_arm_tails_apart(k, a.to, name, sty, n as int);
            assert(is_outside(v.next, n as int, a.next as int));
            assert(arms_absent(a.to, temp_name(v.next)));
            lemma_arm_tails_range(k, a.to, name, sty, v.next);
            let read = Node::Var { name, ty: sty };
            let inner = Node::Match { scrutinee: Box::new(read), arms: t.to, ty };
            assert(scopes_apart(read) && absent(read, name));
            assert(scopes_apart(inner));
            assert(absent(inner, name));
            assert(tails(inner) == tails_arms(t.to));
            assert forall|m: u64| is_outside(m, n as int, r.next as int) implies absent(
                r.to,
                #[trigger] temp_name(m),
            ) by {
                if name == temp_name(m) {
                    lemma_temps_differ(v.next, m);
                }
                assert(is_outside(m, n as int, a.next as int));
                assert(arms_absent(a.to, temp_name(m)));
                assert(is_outside(m, k as int, t.next as int));
                lemma_arm_tails_range(k, a.to, name, sty, m);
                assert(is_outside(m, a.next as int, v.next as int));
                assert(absent(v.to, temp_name(m)));
                assert(absent(read, temp_name(m)));
                assert(absent(inner, temp_name(m)));
            }
        }
    }
}

proof fn lemma_throw_fresh(n: u64, e: Node, vis: Seq<Seq<char>>)
    requires
        e is Throw,
        is_bare(e, vis),
        n + numbers(e) <= u64::MAX,
    ensures
        is_fresh(own(n, e), n as int, n + numbers(e)),
        tails(own(n, e).to) == tails(e),
    decreases e, 0nat,
{
    if let Node::Throw { value } = e {
        let v = own(n, *value);
        lemma_owned_fresh(n, *value, vis);
        let r = own(n, e);
        let name = temp_name(v.next);
        let ty = node_ty(v.to);
        let read = Node::Var { name, ty };
        let thrown = Node::Throw { value: Box::new(read) };
        assert(scopes_apart(read));
        assert(scopes_apart(thrown));
        assert(tails(thrown) == 1);
        assert forall|x: Seq<char>| #[trigger] absent(thrown, x) by {
            assert(absent(read, x));
        }
        assert(absent(thrown, name));
        assert forall|m: u64| is_outside(m, n as int, r.next as int) implies absent(
            r.to,
            #[trigger] temp_name(m),
        ) by {
            if name == temp_name(m) {
                lemma_temps_differ(v.next, m);
            }
            assert(is_outside(m, n as int, v.next as int));
            assert(absent(v.to, temp_name(m)));
            assert(absent(thrown, temp_name(m)));
        }
    }
}

proof fn lemma_try_fresh(n: u64, e: Node, vis: Seq<Seq<char>>)
    requires
        e is Try,
        is_bare(e, vis),
        n + numbers(e) <= u64::MAX,
    ensures
        is_fresh(own(n, e), n as int, n + numbers(e)),
        tails(own(n, e).to) == tails(e),
    decreases e, 0nat,
{
    if let Node::Try { body, arms, ty, err_name } = e {
        let err = temp_name(n);
        let k = next_count(n);
        let a = own_catch_arms(k, arms, err);
        lemma_catch_arms_fresh(k, arms, err, vis);
        let b = own(a.next, *body);
        lemma_owned_fresh(a.next, *body, vis);
        let r = own(n, e);
        assert(is_outside(n, k as int, a.next as int));
        assert(arms_absent(a.to, temp_name(n)));
        assert forall|m: u64| is_outside(m, n as int, r.next as int) implies absent(
            r.to,
            #[trigger] temp_name(m),
        ) by {
            if err == temp_name(m) {
                lemma_temps_differ(n, m);
            }
            assert(is_outside(m, k as int, a.next as int));
            assert(arms_absent(a.to, temp_name(m)));
            assert(is_outside(m, a.next as int, b.next as int));
            assert(absent(b.to, temp_name(m)));
        }
    }
}

proof fn lemma_lambda_fresh(n: u64, e: Node, vis: Seq<Seq<char>>)
    requires
        e is Fn,
        is_bare(e, vis),
        n + numbers(e) <= u64::MAX,
    ensures
        is_fresh(own(n, e), n as int, n + numbers(e)),
        tails(own(n, e).to) == tails(e),
    decreases e, 0nat,
{
    if let Node::Fn { params, body, .. } = e {
        let inner = param_vis(vis, params);
        let o = own(n, *body);
        lemma_owned_fresh(n, *body, inner);
        lemma_params_fresh(o.next, params, o.to, n as int);
        let b = release_params(o.next, params, o.to);
        assert forall|i: int| 0 <= i < params.len() implies absent(
            b.to,
            (#[trigger] params[i]).name,
        ) by {
            lemma_param_absent(n, params, *body, vis, i);
        }
    }
}

/// A parameter is not bound again in the owned form of its function.
pub proof fn lemma_param_absent(n: u64, params: Seq<Bind>, body: Node, vis: Seq<Seq<char>>, i: int)
    requires
        params_apart(params, vis),
        apart(body, param_vis(vis, params)),
        0 <= i < params.len(),
    ensures
        absent(own_body(n, params, body).to, params[i].name),
{
    let inner = param_vis(vis, params);
    let x = params[i].name;
    lemma_params(params, vis);
    lemma_params_unnumbered(params, vis, i);
    visible_names_are_not_bound(body, inner, x);
    lemma_owned_absent(n, body, x);
    let o = own(n, body);
    lemma_params_absent(o.next, params, o.to, x);
}

pub proof fn lemma_params_unnumbered(params: Seq<Bind>, vis: Seq<Seq<char>>, i: int)
    requires
        params_apart(params, vis),
        0 <= i < params.len(),
    ensures
        !is_temp(params[i].name),
    decreases params.len(),
{
    if i < params.len() - 1 {
        lemma_params_unnumbered(params.drop_last(), vis, i);
    }
}

/// How many numbers the temporaries of some functions take at most.
pub open spec fn numbers_of(p: Seq<FnNode>) -> nat
    decreases p.len(),
{
    if p.len() == 0 {
        0
    } else {
        numbers_of(p.drop_last()) + numbers_in(p.last())
    }
}

/// How many numbers the temporaries of a function take at most.
pub open spec fn numbers_in(f: FnNode) -> nat {
    numbers(f.body) + f.params.len() * tails(f.body)
}

/// Whether the binders of a function are apart, and nothing in it is managed yet.
pub open spec fn is_apart_fn(f: FnNode) -> bool {
    &&& unmanaged(f.body)
    &&& params_apart(f.params, Seq::empty())
    &&& apart(f.body, param_vis(Seq::empty(), f.params))
}

/// While numbers for temporaries do not run out, nothing in the owned form of a
/// function is bound again in the scope of a heap binding.
pub proof fn scopes_of_a_function_are_apart(n: u64, f: FnNode)
    requires
        is_apart_fn(f),
        n + numbers_in(f) <= u64::MAX,
    ensures
        n <= own_body(n, f.params, f.body).next <= n + numbers_in(f),
        scopes_apart(own_body(n, f.params, f.body).to),
        forall|i: int|
            0 <= i < f.params.len() ==> absent(
                own_body(n, f.params, f.body).to,
                (#[trigger] f.params[i]).name,
            ),
{
    let none = Seq::<Seq<char>>::empty();
    let o = own(n, f.body);
    lemma_owned_fresh(n, f.body, param_vis(none, f.params));
    lemma_params_fresh(o.next, f.params, o.to, n as int);
    assert forall|i: int| 0 <= i < f.params.len() implies absent(
        own_body(n, f.params, f.body).to,
        (#[trigger] f.params[i]).name,
    ) by {
        lemma_param_absent(n, f.params, f.body, none, i);
    }
}

/// The numbers that managing some functions takes.
pub proof fn lemma_numbers(n: u64, q: Seq<FnNode>)
    requires
        forall|k: int| 0 <= k < q.len() ==> is_apart_fn(#[trigger] q[k]),
        n + numbers_of(q) <= u64::MAX,
    ensures
        n <= manage_fns(n, q).next <= n + numbers_of(q),
    decreases q.len(),
{
    if q.len() > 0 {
        let front = q.drop_last();
        assert forall|k: int| 0 <= k < front.len() implies is_apart_fn(#[trigger] front[k]) by {
            assert(front[k] == q[k]);
        }
        lemma_numbers(n, front);
        assert(is_apart_fn(q[q.len() - 1]));
        scopes_of_a_function_are_apart(manage_fns(n, front).next, q.last());
    }
}

pub proof fn lemma_numbers_before(q: Seq<FnNode>, j: int)
    requires
        0 <= j < q.len(),
    ensures
        numbers_of(q.take(j)) + numbers_in(q[j]) <= numbers_of(q),
    decreases q.len(),
{
    let front = q.drop_last();
    if j < front.len() {
        lemma_numbers_before(front, j);
        assert(front.take(j) =~= q.take(j));
    } else {
        assert(front =~= q.take(j));
    }
}

} // verus!
