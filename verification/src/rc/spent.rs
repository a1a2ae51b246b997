//! Every temporary is released once on every path through its scope, or it is read
//! once, without a retain, and not released: what it holds is handed on.

use vstd::prelude::*;

use crate::ir::{node_ty, ArmNode, Bind, FnNode, Node};
use crate::rc::absent::{
    absent, arm_absent, arms_absent, lemma_owned_absent, lemma_params_absent,
    visible_names_are_not_bound,
};
use crate::rc::apart::{
    apart, apart_all, apart_arm, apart_arms, param_vis, params_apart, pattern_vis, reads_no_temp,
};
use crate::rc::count::{
    hold_of, holds, is_own, kept, kept_all, kept_arm, kept_arms, Hold,
};
use crate::rc::elide::{captured, uses, uses_all, uses_arm, uses_arms};
use crate::rc::fresh::{
    arm_ranged, arms_ranged, hoists_apart, hoists_fresh, is_apart_fn, is_numbered, is_outside,
    lemma_arm_tail_number, lemma_arm_tails_number, lemma_atom_fresh, lemma_atoms_fresh, lemma_call_hoists, lemma_catch_arm_fresh,
    lemma_catch_arms_fresh, lemma_match_arm_fresh, lemma_match_arms_fresh, lemma_older,
    lemma_operand_fresh, lemma_operand_numbers, lemma_operands_fresh, lemma_owned_fresh,
    lemma_params_fresh, lemma_params_unnumbered, lemma_tails_number, lemma_temps_differ,
    lemma_wider, numbers, numbers_all, numbers_arm, numbers_arms, numbers_in, operands_fresh,
    ranged, tails, tails_arm, tails_arms,
};
use crate::rc::insert::{
    add_hoist, any_release, atomize, atomize_one, bind_all, caught_ty, hands_on, hoisted_operand,
    needs_release, operands_of, own, own_body, own_call, own_catch_arm, own_catch_arms, own_match,
    own_match_arm, own_match_arms, release_after, release_all, release_arm_jump,
    release_arm_jumps, release_arm_tail, release_arm_tails, release_jumps, release_params,
    release_tails, release_value_jumps, rewrite_operand, rewrite_operands, takes_ownership,
    temp_name, with_operands, wrap_node, Hoist, Operand, Rewritten,
};
use crate::rc::laws::{
    arm_jump_passes, arm_jumps_pass, arm_passes, arms_get_one_release, arms_pass, is_temp,
    jumps_pass, other_releases_are_left_alone, passes, value_jumps_pass,
};
use crate::rc::moves::{reads, retains, retains_all, retains_arm, retains_arms};
use crate::rc::once::{lemma_params, unmanaged, unmanaged_all, unmanaged_arm, unmanaged_arms};
use crate::rc::owned::{is_bare, lemma_all_bare, lemma_jumps_pass, lemma_taken_bare};
use crate::rc::place::{bare, scopes_apart};
use crate::rc::rename::next_count;
use crate::types::{heap, Ty};

verus! {

/// Whether nothing in `e` reads, captures or releases `x`.
pub open spec fn quiet(e: Node, x: Seq<char>) -> bool
    decreases e,
{
    match e {
        Node::Var { name, .. } => name != x,
        Node::Fn { captures, .. } => captured(captures, x) == 0,
        Node::Release { name, next, .. } => name != x && quiet(*next, x),
        Node::Retain { value } => quiet(*value, x),
        Node::Let { value, next, .. } => quiet(*value, x) && quiet(*next, x),
        Node::Call { callee, args, .. } => quiet(*callee, x) && all_quiet(args, x),
        Node::Platform { args, .. } => all_quiet(args, x),
        Node::Intrinsic { args, .. } => all_quiet(args, x),
        Node::TailSelfCall { args, .. } => all_quiet(args, x),
        Node::Array { elems, .. } => all_quiet(elems, x),
        Node::EnumValue { payload, .. } => all_quiet(payload, x),
        Node::RecordValue { fields, .. } => all_quiet(fields, x),
        Node::Throw { value } => quiet(*value, x),
        Node::Question { value, .. } => quiet(*value, x),
        Node::FieldAccess { target, .. } => quiet(*target, x),
        Node::Panic { message } => quiet(*message, x),
        Node::CharFromCode(value) => quiet(*value, x),
        Node::StringFromChar(value) => quiet(*value, x),
        Node::Binary { left, right, .. } => quiet(*left, x) && quiet(*right, x),
        Node::Concat { left, right } => quiet(*left, x) && quiet(*right, x),
        Node::If { cond, then, els, .. } => quiet(*cond, x) && quiet(*then, x) && quiet(
            *els, x,
        ),
        Node::Match { scrutinee, arms, .. } => quiet(*scrutinee, x) && arms_quiet(arms, x),
        Node::Try { body, arms, .. } => quiet(*body, x) && arms_quiet(arms, x),
        _ => true,
    }
}

/// [`quiet`] of every expression of a list.
pub open spec fn all_quiet(s: Seq<Node>, x: Seq<char>) -> bool
    decreases s,
{
    s.len() == 0 || (all_quiet(s.drop_last(), x) && quiet(s.last(), x))
}

/// [`quiet`] of an arm.
pub open spec fn arm_quiet(arm: ArmNode, x: Seq<char>) -> bool
    decreases arm,
{
    (match arm.guard {
        Some(guard) => quiet(*guard, x),
        None => true,
    }) && quiet(*arm.body, x)
}

/// [`quiet`] of every arm of a list.
pub open spec fn arms_quiet(s: Seq<ArmNode>, x: Seq<char>) -> bool
    decreases s,
{
    s.len() == 0 || (arms_quiet(s.drop_last(), x) && arm_quiet(s.last(), x))
}

/// Whether a scope is done with `x`, of type `ty`: it releases it once on every path and
/// keeps no reference to it, or reads it once, where a heap value is kept, and does not
/// release it. It does not retain it.
pub open spec fn is_spent(scope: Node, x: Seq<char>, ty: Ty) -> bool {
    ||| passes(scope, x, 1) && retains(scope, x) == 0 && kept(scope, x, true) == 0
    ||| passes(scope, x, 0) && retains(scope, x) == 0 && uses(scope, x) == 1 && (heap(ty) ==> kept(
        scope,
        x,
        true,
    ) == 1)
}

/// Whether the scope of every temporary in `e` is done with it.
pub open spec fn temps_spent(e: Node) -> bool
    decreases e,
{
    match e {
        Node::Let { name, value_ty, value, next } => {
            &&& is_temp(name) ==> is_spent(*next, name, value_ty)
            &&& temps_spent(*value)
            &&& temps_spent(*next)
        },
        Node::Fn { body, .. } => temps_spent(*body),
        Node::Release { next, .. } => temps_spent(*next),
        Node::Retain { value } => temps_spent(*value),
        Node::Call { callee, args, .. } => temps_spent(*callee) && all_temps_spent(args),
        Node::Platform { args, .. } => all_temps_spent(args),
        Node::Intrinsic { args, .. } => all_temps_spent(args),
        Node::TailSelfCall { args, .. } => all_temps_spent(args),
        Node::Array { elems, .. } => all_temps_spent(elems),
        Node::EnumValue { payload, .. } => all_temps_spent(payload),
        Node::RecordValue { fields, .. } => all_temps_spent(fields),
        Node::Throw { value } => temps_spent(*value),
        Node::Question { value, .. } => temps_spent(*value),
        Node::FieldAccess { target, .. } => temps_spent(*target),
        Node::Panic { message } => temps_spent(*message),
        Node::CharFromCode(value) => temps_spent(*value),
        Node::StringFromChar(value) => temps_spent(*value),
        Node::Binary { left, right, .. } => temps_spent(*left) && temps_spent(*right),
        Node::Concat { left, right } => temps_spent(*left) && temps_spent(*right),
        Node::If { cond, then, els, .. } => temps_spent(*cond) && temps_spent(*then) && temps_spent(
            *els,
        ),
        Node::Match { scrutinee, arms, .. } => temps_spent(*scrutinee) && arm_temps_spent(arms),
        Node::Try { body, arms, .. } => temps_spent(*body) && arm_temps_spent(arms),
        _ => true,
    }
}

/// [`temps_spent`] of every expression of a list.
pub open spec fn all_temps_spent(s: Seq<Node>) -> bool
    decreases s,
{
    s.len() == 0 || (all_temps_spent(s.drop_last()) && temps_spent(s.last()))
}

/// [`temps_spent`] of an arm.
pub open spec fn arm_temp_spent(arm: ArmNode) -> bool
    decreases arm,
{
    (match arm.guard {
        Some(guard) => temps_spent(*guard),
        None => true,
    }) && temps_spent(*arm.body)
}

/// [`temps_spent`] of every arm of a list.
pub open spec fn arm_temps_spent(s: Seq<ArmNode>) -> bool
    decreases s,
{
    s.len() == 0 || (arm_temps_spent(s.drop_last()) && arm_temp_spent(s.last()))
}

/// What is quiet about `x` does not count.
proof fn lemma_quiet(e: Node, x: Seq<char>)
    requires
        quiet(e, x),
    ensures
        uses(e, x) == 0,
        retains(e, x) == 0,
        !reads(e, x),
        kept(e, x, true) == 0,
        kept(e, x, false) == 0,
    decreases e, 0nat,
{
    match e {
        Node::Release { next, .. } => lemma_quiet(*next, x),
        Node::Retain { value } => lemma_quiet(*value, x),
        Node::Let { value, next, .. } => {
            lemma_quiet(*value, x);
            lemma_quiet(*next, x);
        },
        Node::Call { callee, args, .. } => {
            lemma_quiet(*callee, x);
            lemma_quiet_all(args, x);
            lemma_quiet_held(hold_of(e), args, x);
        },
        Node::Platform { args, .. } => {
            lemma_quiet_all(args, x);
            lemma_quiet_held(hold_of(e), args, x);
        },
        Node::Intrinsic { args, .. } => {
            lemma_quiet_all(args, x);
            lemma_quiet_held(hold_of(e), args, x);
        },
        Node::TailSelfCall { args, .. } => {
            lemma_quiet_all(args, x);
            lemma_quiet_held(hold_of(e), args, x);
        },
        Node::Array { elems, .. } => {
            lemma_quiet_all(elems, x);
            lemma_quiet_held(hold_of(e), elems, x);
        },
        Node::EnumValue { payload, .. } => {
            lemma_quiet_all(payload, x);
            lemma_quiet_held(hold_of(e), payload, x);
        },
        Node::RecordValue { fields, .. } => {
            lemma_quiet_all(fields, x);
            lemma_quiet_held(hold_of(e), fields, x);
        },
        Node::Throw { value } => lemma_quiet(*value, x),
        Node::Question { value, .. } => lemma_quiet(*value, x),
        Node::FieldAccess { target, .. } => {
            lemma_quiet(*target, x);
            lemma_quiet_own(*target, x, is_own(false, *target));
        },
        Node::Panic { message } => {
            lemma_quiet(*message, x);
            lemma_quiet_own(*message, x, !(bare(*message) is Var));
        },
        Node::CharFromCode(value) => {
            lemma_quiet(*value, x);
            lemma_quiet_own(*value, x, is_own(false, *value));
        },
        Node::StringFromChar(value) => {
            lemma_quiet(*value, x);
            lemma_quiet_own(*value, x, is_own(false, *value));
        },
        Node::Binary { left, right, .. } => {
            lemma_quiet(*left, x);
            lemma_quiet_own(*left, x, is_own(false, *left));
            lemma_quiet(*right, x);
            lemma_quiet_own(*right, x, is_own(false, *right));
        },
        Node::Concat { left, right } => {
            lemma_quiet(*left, x);
            lemma_quiet_own(*left, x, is_own(false, *left));
            lemma_quiet(*right, x);
            lemma_quiet_own(*right, x, is_own(false, *right));
        },
        Node::If { cond, then, els, .. } => {
            lemma_quiet(*cond, x);
            lemma_quiet(*then, x);
            lemma_quiet(*els, x);
        },
        Node::Match { scrutinee, arms, .. } => {
            lemma_quiet(*scrutinee, x);
            lemma_quiet_arms(arms, x);
        },
        Node::Try { body, arms, .. } => {
            lemma_quiet(*body, x);
            lemma_quiet_arms(arms, x);
        },
        _ => {},
    }
}

proof fn lemma_quiet_all(s: Seq<Node>, x: Seq<char>)
    requires
        all_quiet(s, x),
    ensures
        uses_all(s, x) == 0,
        retains_all(s, x) == 0,
        kept_all(Hold::All, s, x) == 0,
        kept_all(Hold::Second, s, x) == 0,
        kept_all(Hold::Nothing, s, x) == 0,
    decreases s, 0nat,
{
    if s.len() > 0 {
        lemma_quiet_all(s.drop_last(), x);
        lemma_quiet(s.last(), x);
        lemma_quiet_own(s.last(), x, is_own(holds(Hold::All, s.len() - 1), s.last()));
        lemma_quiet_own(s.last(), x, is_own(holds(Hold::Second, s.len() - 1), s.last()));
        lemma_quiet_own(s.last(), x, is_own(holds(Hold::Nothing, s.len() - 1), s.last()));
    }
}

proof fn lemma_quiet_arm(arm: ArmNode, x: Seq<char>)
    requires
        arm_quiet(arm, x),
    ensures
        uses_arm(arm, x) == 0,
        retains_arm(arm, x) == 0,
        kept_arm(arm, x, true) == 0,
        kept_arm(arm, x, false) == 0,
    decreases arm, 0nat,
{
    if let Some(guard) = arm.guard {
        lemma_quiet(*guard, x);
    }
    lemma_quiet(*arm.body, x);
}

proof fn lemma_quiet_arms(s: Seq<ArmNode>, x: Seq<char>)
    requires
        arms_quiet(s, x),
    ensures
        uses_arms(s, x) == 0,
        retains_arms(s, x) == 0,
        kept_arms(s, x, true) == 0,
        kept_arms(s, x, false) == 0,
    decreases s, 0nat,
{
    if s.len() > 0 {
        lemma_quiet_arms(s.drop_last(), x);
        lemma_quiet_arm(s.last(), x);
    }
}

proof fn lemma_quiet_own(e: Node, x: Seq<char>, own: bool)
    requires
        kept(e, x, true) == 0,
        kept(e, x, false) == 0,
    ensures
        kept(e, x, own) == 0,
{
    if own {
        assert(kept(e, x, own) == kept(e, x, true));
    } else {
        assert(kept(e, x, own) == kept(e, x, false));
    }
}

proof fn lemma_quiet_held(h: Hold, s: Seq<Node>, x: Seq<char>)
    requires
        kept_all(Hold::All, s, x) == 0,
        kept_all(Hold::Second, s, x) == 0,
        kept_all(Hold::Nothing, s, x) == 0,
    ensures
        kept_all(h, s, x) == 0,
{
    match h {
        Hold::All => {},
        Hold::Second => {},
        Hold::Nothing => {},
    }
}


/// What is quiet about `x` does not release it.
proof fn lemma_quiet_passes(e: Node, x: Seq<char>)
    requires
        quiet(e, x),
    ensures
        passes(e, x, 0),
        jumps_pass(e, x, 0),
    decreases e,
{
    match e {
        Node::Let { value, next, .. } => {
            lemma_quiet_passes(*next, x);
            assert(quiet(*value, x));
            if let Node::Try { body, arms, .. } = *value {
                assert(quiet(*body, x) && arms_quiet(arms, x));
                lemma_quiet_arms_pass(arms, x);
            }
            assert(value_jumps_pass(*value, x, 0));
        },
        Node::Release { next, .. } => lemma_quiet_passes(*next, x),
        Node::If { then, els, .. } => {
            lemma_quiet_passes(*then, x);
            lemma_quiet_passes(*els, x);
        },
        Node::Match { arms, .. } => lemma_quiet_arms_pass(arms, x),
        Node::Try { arms, .. } => lemma_quiet_arms_pass(arms, x),
        _ => {},
    }
}

proof fn lemma_quiet_arm_passes(arm: ArmNode, x: Seq<char>)
    requires
        arm_quiet(arm, x),
    ensures
        arm_passes(arm, x, 0),
        arm_jump_passes(arm, x, 0),
    decreases arm,
{
    lemma_quiet_passes(*arm.body, x);
}

proof fn lemma_quiet_arms_pass(s: Seq<ArmNode>, x: Seq<char>)
    requires
        arms_quiet(s, x),
    ensures
        arms_pass(s, x, 0),
        arm_jumps_pass(s, x, 0),
    decreases s,
{
    if s.len() > 0 {
        lemma_quiet_arms_pass(s.drop_last(), x);
        lemma_quiet_arm_passes(s.last(), x);
    }
}

/// Releases before jumps leave the reads of another name alone.
proof fn lemma_jumps_same(e: Node, y: Seq<char>, ty: Ty, x: Seq<char>)
    ensures
        uses(release_jumps(e, y, ty), x) == uses(e, x),
        retains(release_jumps(e, y, ty), x) == retains(e, x),
        kept(release_jumps(e, y, ty), x, true) == kept(e, x, true),
        x != y && quiet(e, x) ==> quiet(release_jumps(e, y, ty), x),
    decreases e,
{
    reveal(release_jumps);
    reveal(release_arm_jump);
    reveal(release_arm_jumps);
    match e {
        Node::Let { name, value, next, .. } => {
            lemma_value_same(*value, hands_on(*next, name), y, ty, x);
            lemma_jumps_same(*next, y, ty, x);
        },
        Node::Release { next, .. } => lemma_jumps_same(*next, y, ty, x),
        Node::If { then, els, .. } => {
            lemma_jumps_same(*then, y, ty, x);
            lemma_jumps_same(*els, y, ty, x);
        },
        Node::Match { arms, .. } => lemma_arm_jumps_same(arms, y, ty, x),
        Node::Try { arms, .. } => lemma_arm_jumps_same(arms, y, ty, x),
        _ => {
            reveal_with_fuel(quiet, 2);
            reveal_with_fuel(uses, 2);
            reveal_with_fuel(retains, 2);
            reveal_with_fuel(kept, 2);
        },
    }
}

proof fn lemma_value_same(value: Node, handed_on: bool, y: Seq<char>, ty: Ty, x: Seq<char>)
    ensures
        uses(release_value_jumps(value, handed_on, y, ty), x) == uses(value, x),
        retains(release_value_jumps(value, handed_on, y, ty), x) == retains(value, x),
        kept(release_value_jumps(value, handed_on, y, ty), x, true) == kept(value, x, true),
        x != y && quiet(value, x) ==> quiet(release_value_jumps(value, handed_on, y, ty), x),
    decreases value,
{
    reveal(release_jumps);
    reveal(release_arm_jump);
    reveal(release_arm_jumps);
    if let Node::Try { arms, .. } = value {
        lemma_arm_jumps_same(arms, y, ty, x);
    }
}

proof fn lemma_arm_jump_same(arm: ArmNode, y: Seq<char>, ty: Ty, x: Seq<char>)
    ensures
        uses_arm(release_arm_jump(arm, y, ty), x) == uses_arm(arm, x),
        retains_arm(release_arm_jump(arm, y, ty), x) == retains_arm(arm, x),
        kept_arm(release_arm_jump(arm, y, ty), x, true) == kept_arm(arm, x, true),
        x != y && arm_quiet(arm, x) ==> arm_quiet(release_arm_jump(arm, y, ty), x),
    decreases arm,
{
    reveal(release_jumps);
    reveal(release_arm_jump);
    reveal(release_arm_jumps);
    lemma_jumps_same(*arm.body, y, ty, x);
}

proof fn lemma_arm_jumps_same(s: Seq<ArmNode>, y: Seq<char>, ty: Ty, x: Seq<char>)
    ensures
        uses_arms(release_arm_jumps(s, y, ty), x) == uses_arms(s, x),
        retains_arms(release_arm_jumps(s, y, ty), x) == retains_arms(s, x),
        kept_arms(release_arm_jumps(s, y, ty), x, true) == kept_arms(s, x, true),
        x != y && arms_quiet(s, x) ==> arms_quiet(release_arm_jumps(s, y, ty), x),
    decreases s,
{
    reveal(release_jumps);
    reveal(release_arm_jump);
    reveal(release_arm_jumps);
    if s.len() > 0 {
        lemma_arm_jumps_same(s.drop_last(), y, ty, x);
        lemma_arm_jump_same(s.last(), y, ty, x);
        let init = release_arm_jumps(s.drop_last(), y, ty);
        assert(init.push(release_arm_jump(s.last(), y, ty)).drop_last() =~= init);
    }
}

proof fn lemma_jumps_spent(e: Node, y: Seq<char>, ty: Ty)
    requires
        temps_spent(e),
        absent(e, y),
    ensures
        temps_spent(release_jumps(e, y, ty)),
    decreases e,
{
    reveal(release_jumps);
    reveal(release_arm_jump);
    reveal(release_arm_jumps);
    match e {
        Node::Let { name, value, next, .. } => {
            if is_temp(name) {
                lemma_jumps_same(*next, y, ty, name);
                if passes(*next, name, 1) {
                    lemma_jumps_pass(*next, y, ty, name, 1);
                }
                if passes(*next, name, 0) {
                    lemma_jumps_pass(*next, y, ty, name, 0);
                }
            }
            lemma_value_spent(*value, hands_on(*next, name), y, ty);
            lemma_jumps_spent(*next, y, ty);
        },
        Node::Release { next, .. } => lemma_jumps_spent(*next, y, ty),
        Node::If { then, els, .. } => {
            lemma_jumps_spent(*then, y, ty);
            lemma_jumps_spent(*els, y, ty);
        },
        Node::Match { arms, .. } => lemma_arm_jumps_spent(arms, y, ty),
        Node::Try { arms, .. } => lemma_arm_jumps_spent(arms, y, ty),
        _ => {
            reveal_with_fuel(temps_spent, 2);
        },
    }
}

proof fn lemma_value_spent(value: Node, handed_on: bool, y: Seq<char>, ty: Ty)
    requires
        temps_spent(value),
        absent(value, y),
    ensures
        temps_spent(release_value_jumps(value, handed_on, y, ty)),
    decreases value,
{
    reveal(release_jumps);
    reveal(release_arm_jump);
    reveal(release_arm_jumps);
    if let Node::Try { arms, .. } = value {
        lemma_arm_jumps_spent(arms, y, ty);
    }
}

proof fn lemma_arm_jump_spent(arm: ArmNode, y: Seq<char>, ty: Ty)
    requires
        arm_temp_spent(arm),
        arm_absent(arm, y),
    ensures
        arm_temp_spent(release_arm_jump(arm, y, ty)),
    decreases arm,
{
    reveal(release_jumps);
    reveal(release_arm_jump);
    reveal(release_arm_jumps);
    lemma_jumps_spent(*arm.body, y, ty);
}

proof fn lemma_arm_jumps_spent(s: Seq<ArmNode>, y: Seq<char>, ty: Ty)
    requires
        arm_temps_spent(s),
        arms_absent(s, y),
    ensures
        arm_temps_spent(release_arm_jumps(s, y, ty)),
    decreases s,
{
    reveal(release_jumps);
    reveal(release_arm_jump);
    reveal(release_arm_jumps);
    if s.len() > 0 {
        lemma_arm_jumps_spent(s.drop_last(), y, ty);
        lemma_arm_jump_spent(s.last(), y, ty);
        let init = release_arm_jumps(s.drop_last(), y, ty);
        assert(init.push(release_arm_jump(s.last(), y, ty)).drop_last() =~= init);
    }
}

/// Releases at tails leave the reads of an older temporary alone.
proof fn lemma_tails_same(n: u64, e: Node, y: Seq<char>, ty: Ty, m: u64)
    requires
        n + tails(e) <= u64::MAX,
        is_outside(m, n as int, release_tails(n, e, y, ty).next as int),
    ensures
        uses(release_tails(n, e, y, ty).to, temp_name(m)) == uses(e, temp_name(m)),
        retains(release_tails(n, e, y, ty).to, temp_name(m)) == retains(e, temp_name(m)),
        kept(release_tails(n, e, y, ty).to, temp_name(m), true) == kept(e, temp_name(m), true),
        temp_name(m) != y && quiet(e, temp_name(m)) ==> quiet(
            release_tails(n, e, y, ty).to,
            temp_name(m),
        ),
    decreases e,
{
    reveal(release_tails);
    reveal(release_arm_tail);
    reveal(release_arm_tails);
    let x = temp_name(m);
    match e {
        Node::Let { name, value, next, .. } => {
            lemma_value_same(*value, hands_on(*next, name), y, ty, x);
            lemma_tails_same(n, *next, y, ty, m);
        },
        Node::Release { next, .. } => lemma_tails_same(n, *next, y, ty, m),
        Node::If { then, els, .. } => {
            let t = release_tails(n, *then, y, ty);
            lemma_tails_number(n, *then, y, ty);
            lemma_tails_number(t.next, *els, y, ty);
            lemma_tails_same(n, *then, y, ty, m);
            lemma_tails_same(t.next, *els, y, ty, m);
        },
        Node::Match { arms, .. } => lemma_arm_tails_same(n, arms, y, ty, m),
        Node::Try { .. } => {
            lemma_value_same(e, true, y, ty, x);
            let leaf = release_value_jumps(e, true, y, ty);
            assert(release_tails(n, e, y, ty) == release_after(n, leaf, y, ty)) by {
                reveal(release_jumps);
                reveal(release_arm_jump);
                reveal(release_arm_jumps);
            }
            lemma_after_same(n, leaf, y, ty, m);
        },
        _ => {
            if release_tails(n, e, y, ty) == release_after(n, e, y, ty) {
                lemma_after_same(n, e, y, ty, m);
            } else {
                reveal_with_fuel(quiet, 2);
                reveal_with_fuel(uses, 2);
                reveal_with_fuel(retains, 2);
                reveal_with_fuel(kept, 2);
            }
        },
    }
}

proof fn lemma_after_same(n: u64, leaf: Node, y: Seq<char>, ty: Ty, m: u64)
    requires
        n < u64::MAX,
        is_outside(m, n as int, release_after(n, leaf, y, ty).next as int),
    ensures
        uses(release_after(n, leaf, y, ty).to, temp_name(m)) == uses(leaf, temp_name(m)),
        retains(release_after(n, leaf, y, ty).to, temp_name(m)) == retains(leaf, temp_name(m)),
        kept(release_after(n, leaf, y, ty).to, temp_name(m), true) == kept(
            leaf,
            temp_name(m),
            true,
        ),
        temp_name(m) != y && quiet(leaf, temp_name(m)) ==> quiet(
            release_after(n, leaf, y, ty).to,
            temp_name(m),
        ),
{
    reveal(release_after);
    let x = temp_name(m);
    if temp_name(n) == x {
        lemma_temps_differ(n, m);
    }
    let read = Node::Var { name: temp_name(n), ty: node_ty(leaf) };
    let rest = Node::Release { name: y, ty, next: Box::new(read) };
    assert(quiet(read, x));
    assert(x != y ==> quiet(rest, x));
    lemma_quiet(read, x);
    assert(uses(rest, x) == 0 && retains(rest, x) == 0 && kept(rest, x, true) == 0);
}

proof fn lemma_arm_tail_same(n: u64, arm: ArmNode, y: Seq<char>, ty: Ty, m: u64)
    requires
        n + tails_arm(arm) <= u64::MAX,
        is_outside(m, n as int, release_arm_tail(n, arm, y, ty).next as int),
    ensures
        uses_arm(release_arm_tail(n, arm, y, ty).to, temp_name(m)) == uses_arm(arm, temp_name(m)),
        retains_arm(release_arm_tail(n, arm, y, ty).to, temp_name(m)) == retains_arm(
            arm,
            temp_name(m),
        ),
        kept_arm(release_arm_tail(n, arm, y, ty).to, temp_name(m), true) == kept_arm(
            arm,
            temp_name(m),
            true,
        ),
        temp_name(m) != y && arm_quiet(arm, temp_name(m)) ==> arm_quiet(
            release_arm_tail(n, arm, y, ty).to,
            temp_name(m),
        ),
    decreases arm,
{
    reveal(release_tails);
    reveal(release_arm_tail);
    reveal(release_arm_tails);
    lemma_tails_same(n, *arm.body, y, ty, m);
}

proof fn lemma_arm_tails_same(n: u64, s: Seq<ArmNode>, y: Seq<char>, ty: Ty, m: u64)
    requires
        n + tails_arms(s) <= u64::MAX,
        is_outside(m, n as int, release_arm_tails(n, s, y, ty).next as int),
    ensures
        uses_arms(release_arm_tails(n, s, y, ty).to, temp_name(m)) == uses_arms(s, temp_name(m)),
        retains_arms(release_arm_tails(n, s, y, ty).to, temp_name(m)) == retains_arms(
            s,
            temp_name(m),
        ),
        kept_arms(release_arm_tails(n, s, y, ty).to, temp_name(m), true) == kept_arms(
            s,
            temp_name(m),
            true,
        ),
        temp_name(m) != y && arms_quiet(s, temp_name(m)) ==> arms_quiet(
            release_arm_tails(n, s, y, ty).to,
            temp_name(m),
        ),
    decreases s,
{
    reveal(release_tails);
    reveal(release_arm_tail);
    reveal(release_arm_tails);
    if s.len() > 0 {
        let init = release_arm_tails(n, s.drop_last(), y, ty);
        lemma_arm_tails_number(n, s.drop_last(), y, ty);
        lemma_arm_tail_number(init.next, s.last(), y, ty);
        lemma_arm_tails_same(n, s.drop_last(), y, ty, m);
        lemma_arm_tail_same(init.next, s.last(), y, ty, m);
        let last = release_arm_tail(init.next, s.last(), y, ty);
        assert(init.to.push(last.to).drop_last() =~= init.to);
    }
}

/// Whether a name is that of no temporary from `n` on.
spec fn is_older(y: Seq<char>, n: int) -> bool {
    forall|m: u64| m >= n ==> y != #[trigger] temp_name(m)
}

proof fn lemma_tails_spent(n: u64, e: Node, y: Seq<char>, ty: Ty, lo: int)
    requires
        temps_spent(e),
        absent(e, y),
        is_older(y, n as int),
        ranged(e, lo, n as int),
        n + tails(e) <= u64::MAX,
    ensures
        temps_spent(release_tails(n, e, y, ty).to),
    decreases e,
{
    reveal(release_tails);
    reveal(release_arm_tail);
    reveal(release_arm_tails);
    match e {
        Node::Let { name, value_ty, value, next } => {
            assert(ranged(*next, lo, n as int)) by {
                assert forall|m: u64| is_outside(m, lo, n as int) implies absent(
                    *next,
                    #[trigger] temp_name(m),
                ) by {
                    assert(absent(e, temp_name(m)));
                }
            }
            if is_temp(name) {
                let m = lemma_older(e, lo, n);
                lemma_tails_number(n, *next, y, ty);
                lemma_tails_same(n, *next, y, ty, m);
                if passes(*next, name, 1) {
                    other_releases_are_left_alone(n, *next, y, ty, name, 1);
                }
                if passes(*next, name, 0) {
                    other_releases_are_left_alone(n, *next, y, ty, name, 0);
                }
            }
            lemma_value_spent(*value, hands_on(*next, name), y, ty);
            lemma_tails_spent(n, *next, y, ty, lo);
        },
        Node::Release { next, .. } => {
            assert forall|m: u64| is_outside(m, lo, n as int) implies absent(
                *next,
                #[trigger] temp_name(m),
            ) by {
                assert(absent(e, temp_name(m)));
            }
            lemma_tails_spent(n, *next, y, ty, lo);
        },
        Node::If { then, els, .. } => {
            let t = release_tails(n, *then, y, ty);
            lemma_tails_number(n, *then, y, ty);
            assert forall|m: u64| is_outside(m, lo, n as int) implies absent(
                *then,
                #[trigger] temp_name(m),
            ) by {
                assert(absent(e, temp_name(m)));
            }
            assert forall|m: u64| is_outside(m, lo, t.next as int) implies absent(
                *els,
                #[trigger] temp_name(m),
            ) by {
                assert(absent(e, temp_name(m)));
            }
            lemma_tails_spent(n, *then, y, ty, lo);
            lemma_tails_spent(t.next, *els, y, ty, lo);
        },
        Node::Match { arms, .. } => {
            assert forall|m: u64| is_outside(m, lo, n as int) implies arms_absent(
                arms,
                #[trigger] temp_name(m),
            ) by {
                assert(absent(e, temp_name(m)));
            }
            lemma_arm_tails_spent(n, arms, y, ty, lo);
        },
        Node::Try { .. } => {
            lemma_value_spent(e, true, y, ty);
            let leaf = release_value_jumps(e, true, y, ty);
            assert(release_tails(n, e, y, ty) == release_after(n, leaf, y, ty)) by {
                reveal(release_jumps);
                reveal(release_arm_jump);
                reveal(release_arm_jumps);
            }
            lemma_after_spent(n, leaf, y, ty);
        },
        _ => {
            if release_tails(n, e, y, ty) == release_after(n, e, y, ty) {
                lemma_after_spent(n, e, y, ty);
            } else {
                reveal_with_fuel(temps_spent, 2);
            }
        },
    }
}

proof fn lemma_after_spent(n: u64, leaf: Node, y: Seq<char>, ty: Ty)
    requires
        temps_spent(leaf),
        y != temp_name(n),
    ensures
        temps_spent(release_after(n, leaf, y, ty).to),
{
    reveal(release_after);
    let x = temp_name(n);
    let read = Node::Var { name: x, ty: node_ty(leaf) };
    let rest = Node::Release { name: y, ty, next: Box::new(read) };
    assert(temps_spent(read));
    assert(temps_spent(rest));
    assert(passes(read, x, 0) && uses(read, x) == 1 && retains(read, x) == 0);
    assert(passes(rest, x, 0) && uses(rest, x) == 1 && retains(rest, x) == 0);
    assert(heap(node_ty(leaf)) ==> kept(read, x, true) == 1);
    assert(kept(rest, x, true) == kept(read, x, true));
    assert(is_spent(rest, x, node_ty(leaf)));
}

proof fn lemma_arm_tail_spent(n: u64, arm: ArmNode, y: Seq<char>, ty: Ty, lo: int)
    requires
        arm_temp_spent(arm),
        arm_absent(arm, y),
        is_older(y, n as int),
        arm_ranged(arm, lo, n as int),
        n + tails_arm(arm) <= u64::MAX,
    ensures
        arm_temp_spent(release_arm_tail(n, arm, y, ty).to),
    decreases arm,
{
    reveal(release_tails);
    reveal(release_arm_tail);
    reveal(release_arm_tails);
    assert forall|m: u64| is_outside(m, lo, n as int) implies absent(
        *arm.body,
        #[trigger] temp_name(m),
    ) by {
        assert(arm_absent(arm, temp_name(m)));
    }
    lemma_tails_spent(n, *arm.body, y, ty, lo);
}

proof fn lemma_arm_tails_spent(n: u64, s: Seq<ArmNode>, y: Seq<char>, ty: Ty, lo: int)
    requires
        arm_temps_spent(s),
        arms_absent(s, y),
        is_older(y, n as int),
        arms_ranged(s, lo, n as int),
        n + tails_arms(s) <= u64::MAX,
    ensures
        arm_temps_spent(release_arm_tails(n, s, y, ty).to),
    decreases s,
{
    reveal(release_tails);
    reveal(release_arm_tail);
    reveal(release_arm_tails);
    if s.len() > 0 {
        let front = s.drop_last();
        let init = release_arm_tails(n, front, y, ty);
        lemma_arm_tails_number(n, front, y, ty);
        assert forall|m: u64| is_outside(m, lo, n as int) implies arms_absent(
            front,
            #[trigger] temp_name(m),
        ) by {
            assert(arms_absent(s, temp_name(m)));
        }
        assert forall|m: u64| is_outside(m, lo, init.next as int) implies arm_absent(
            s.last(),
            #[trigger] temp_name(m),
        ) by {
            assert(arms_absent(s, temp_name(m)));
        }
        lemma_arm_tails_spent(n, front, y, ty, lo);
        lemma_arm_tail_spent(init.next, s.last(), y, ty, lo);
        let last = release_arm_tail(init.next, s.last(), y, ty);
        assert(init.to.push(last.to).drop_last() =~= init.to);
    }
}

/// Whether `e` reads and releases no temporary with a number outside a range.
pub open spec fn hushed(e: Node, lo: int, hi: int) -> bool {
    forall|m: u64| is_outside(m, lo, hi) ==> quiet(e, #[trigger] temp_name(m))
}

/// [`hushed`] of an arm.
pub open spec fn arm_hushed(arm: ArmNode, lo: int, hi: int) -> bool {
    forall|m: u64| is_outside(m, lo, hi) ==> arm_quiet(arm, #[trigger] temp_name(m))
}

/// [`hushed`] of every arm of a list.
pub open spec fn arms_hushed(s: Seq<ArmNode>, lo: int, hi: int) -> bool {
    forall|m: u64| is_outside(m, lo, hi) ==> arms_quiet(s, #[trigger] temp_name(m))
}

proof fn lemma_still_hushed(e: Node, lo: int, hi: int, a: int, b: int)
    requires
        hushed(e, lo, hi),
        a <= lo,
        hi <= b,
    ensures
        hushed(e, a, b),
{
    assert forall|m: u64| is_outside(m, a, b) implies quiet(e, #[trigger] temp_name(m)) by {
        assert(is_outside(m, lo, hi));
    }
}

/// What a hushed expression is quiet about.
proof fn lemma_not_heard(e: Node, lo: int, hi: int, name: Seq<char>, a: int, b: int)
    requires
        hushed(e, lo, hi),
        is_numbered(name, a, b),
        b <= lo || hi <= a,
    ensures
        quiet(e, name),
{
    let m = choose|m: u64| a <= m < b && name == #[trigger] temp_name(m);
    assert(is_outside(m, lo, hi));
    assert(quiet(e, temp_name(m)));
}

proof fn lemma_all_quiet(s: Seq<Node>, x: Seq<char>)
    requires
        forall|i: int| 0 <= i < s.len() ==> quiet(#[trigger] s[i], x),
    ensures
        all_quiet(s, x),
    decreases s.len(),
{
    if s.len() > 0 {
        let t = s.drop_last();
        assert forall|i: int| 0 <= i < t.len() implies quiet(#[trigger] t[i], x) by {
            assert(t[i] == s[i]);
        }
        lemma_all_quiet(t, x);
        assert(quiet(s[s.len() - 1], x));
    }
}

proof fn lemma_all_spent(s: Seq<Node>)
    requires
        forall|i: int| 0 <= i < s.len() ==> temps_spent(#[trigger] s[i]),
    ensures
        all_temps_spent(s),
    decreases s.len(),
{
    if s.len() > 0 {
        let t = s.drop_last();
        assert forall|i: int| 0 <= i < t.len() implies temps_spent(#[trigger] t[i]) by {
            assert(t[i] == s[i]);
        }
        lemma_all_spent(t);
        assert(temps_spent(s[s.len() - 1]));
    }
}

/// Whether nothing in the scope of a hoisted operand reads it, up to the last one.
spec fn hoists_silent(s: Seq<Hoist>) -> bool {
    forall|i: int, j: int|
        0 <= i < j < s.len() ==> quiet((#[trigger] s[j]).value, (#[trigger] s[i]).name)
}

/// Whether what hoisted operands hold is done with its temporaries, and hushed.
spec fn hoists_spent(s: Seq<Hoist>, lo: int, hi: int) -> bool {
    forall|i: int|
        0 <= i < s.len() ==> temps_spent((#[trigger] s[i]).value) && hushed(s[i].value, lo, hi)
}

proof fn lemma_bind_hushed(s: Seq<Hoist>, body: Node, lo: int, hi: int)
    requires
        hoists_spent(s, lo, hi),
        hushed(body, lo, hi),
    ensures
        hushed(bind_all(s, body), lo, hi),
    decreases s.len(),
{
    reveal(bind_all);
    if s.len() > 0 {
        let h = s[s.len() - 1];
        let front = s.drop_last();
        let inner = Node::Let {
            name: h.name,
            value_ty: h.ty,
            value: Box::new(h.value),
            next: Box::new(body),
        };
        assert forall|i: int| 0 <= i < front.len() implies temps_spent((#[trigger] front[i]).value)
            && hushed(front[i].value, lo, hi) by {
            assert(front[i] == s[i]);
        }
        assert forall|m: u64| is_outside(m, lo, hi) implies quiet(
            inner,
            #[trigger] temp_name(m),
        ) by {
            assert(quiet(h.value, temp_name(m)));
            assert(quiet(body, temp_name(m)));
        }
        lemma_bind_hushed(front, inner, lo, hi);
    }
}

proof fn lemma_bind_spent(s: Seq<Hoist>, body: Node, lo: int, hi: int)
    requires
        hoists_spent(s, lo, hi),
        hoists_silent(s),
        forall|i: int| 0 <= i < s.len() ==> is_spent(body, (#[trigger] s[i]).name, s[i].ty),
        temps_spent(body),
        !(body is Var) && !(body is Release),
    ensures
        temps_spent(bind_all(s, body)),
    decreases s.len(),
{
    reveal(bind_all);
    if s.len() > 0 {
        let h = s[s.len() - 1];
        let front = s.drop_last();
        let inner = Node::Let {
            name: h.name,
            value_ty: h.ty,
            value: Box::new(h.value),
            next: Box::new(body),
        };
        assert(is_spent(body, h.name, h.ty));
        assert(temps_spent(h.value));
        assert(temps_spent(inner));
        assert forall|i: int| 0 <= i < front.len() implies temps_spent((#[trigger] front[i]).value)
            && hushed(front[i].value, lo, hi) by {
            assert(front[i] == s[i]);
        }
        assert forall|i: int, j: int| 0 <= i < j < front.len() implies quiet(
            (#[trigger] front[j]).value,
            (#[trigger] front[i]).name,
        ) by {
            assert(front[i] == s[i] && front[j] == s[j]);
        }
        assert forall|i: int| 0 <= i < front.len() implies is_spent(
            inner,
            (#[trigger] front[i]).name,
            front[i].ty,
        ) by {
            assert(front[i] == s[i]);
            let x = s[i].name;
            assert(is_spent(body, x, s[i].ty));
            assert(quiet(h.value, x));
            lemma_quiet(h.value, x);
            assert(!hands_on(body, h.name));
            assert(passes(body, x, 1) ==> passes(inner, x, 1));
            assert(passes(body, x, 0) ==> passes(inner, x, 0));
            assert(uses(inner, x) == uses(body, x));
            assert(retains(inner, x) == retains(body, x));
            assert(kept(inner, x, true) == kept(body, x, true));
        }
        lemma_bind_spent(front, inner, lo, hi);
    }
}

/// How often `x` is released after the node that hoisted operands stand above.
spec fn releases_after(s: Seq<Hoist>, x: Seq<char>) -> int
    decreases s.len(),
{
    if s.len() == 0 {
        0
    } else {
        releases_after(s.drop_last(), x) + if s.last().release && s.last().name == x {
            1int
        } else {
            0
        }
    }
}

proof fn lemma_releases_after(s: Seq<Hoist>, x: Seq<char>, i: int)
    requires
        hoists_apart(s),
        0 <= i < s.len() ==> s[i].name == x,
        !(0 <= i < s.len()) ==> forall|k: int|
            0 <= k < s.len() ==> (#[trigger] s[k]).name != x,
    ensures
        releases_after(s, x) == if 0 <= i < s.len() && s[i].release {
            1int
        } else {
            0
        },
    decreases s.len(),
{
    if s.len() > 0 {
        let front = s.drop_last();
        let last = s[s.len() - 1];
        assert(hoists_apart(front)) by {
            assert forall|a: int, b: int| 0 <= a < b < front.len() implies (
            #[trigger] front[a]).name != (#[trigger] front[b]).name && absent(
                front[b].value,
                front[a].name,
            ) by {
                assert(front[a] == s[a] && front[b] == s[b]);
            }
        }
        if 0 <= i < front.len() {
            assert(s[i].name != last.name);
            lemma_releases_after(front, x, i);
        } else {
            assert forall|k: int| 0 <= k < front.len() implies (#[trigger] front[k]).name != x by {
                assert(front[k] == s[k]);
                if i == s.len() - 1 {
                    assert(s[k].name != s[i].name);
                }
            }
            lemma_releases_after(front, x, -1);
            if i != s.len() - 1 {
                assert(s[s.len() - 1].name != x);
            }
        }
    }
}

/// The releases after a node.
proof fn lemma_released(s: Seq<Hoist>, body: Node, x: Seq<char>)
    requires
        passes(body, x, 0),
    ensures
        passes(release_all(s, body), x, releases_after(s, x)),
        uses(release_all(s, body), x) == uses(body, x),
        retains(release_all(s, body), x) == retains(body, x),
        kept(release_all(s, body), x, true) == kept(body, x, true),
        (forall|i: int| 0 <= i < s.len() ==> (#[trigger] s[i]).name != x) && quiet(body, x)
            ==> quiet(release_all(s, body), x),
        temps_spent(body) ==> temps_spent(release_all(s, body)),
    decreases s.len(),
{
    reveal(release_all);
    if s.len() > 0 {
        let front = s.drop_last();
        lemma_released(front, body, x);
        if forall|i: int| 0 <= i < s.len() ==> (#[trigger] s[i]).name != x {
            assert forall|i: int| 0 <= i < front.len() implies (#[trigger] front[i]).name != x by {
                assert(front[i] == s[i]);
            }
            assert(s[s.len() - 1].name != x);
        }
    }
}

/// Whether an expression is neither a binding, a branch, a `try` nor a read.
spec fn is_plain_node(e: Node) -> bool {
    !(e is Let || e is Release || e is If || e is Match || e is Try || e is Var)
}

/// Whether a node reads a hoisted operand as it should: one that is released is not
/// kept, another one is read once, where a heap value is kept.
spec fn is_read_well(h: Hoist, node: Node) -> bool {
    &&& retains(node, h.name) == 0
    &&& h.release ==> kept(node, h.name, true) == 0
    &&& !h.release ==> uses(node, h.name) == 1 && (heap(h.ty) ==> kept(node, h.name, true) == 1)
}

/// [`is_read_well`], of hoisted operands.
spec fn hoists_read(s: Seq<Hoist>, node: Node) -> bool {
    forall|i: int| 0 <= i < s.len() ==> is_read_well(#[trigger] s[i], node)
}

proof fn lemma_wrap_spent(n: u64, s: Seq<Hoist>, node: Node, lo: int)
    requires
        hoists_fresh(s, lo, n as int),
        hoists_apart(s),
        hoists_spent(s, lo, n as int),
        hoists_silent(s),
        hoists_read(s, node),
        temps_spent(node),
        hushed(node, lo, n as int),
        is_plain_node(node),
        lo <= n < u64::MAX,
    ensures
        temps_spent(wrap_node(n, s, node).to),
        hushed(wrap_node(n, s, node).to, lo, wrap_node(n, s, node).next as int),
{
    reveal(wrap_node);
    if any_release(s) {
        let name = temp_name(n);
        let ty = node_ty(node);
        let var = Node::Var { name, ty };
        let released = release_all(s, var);
        let inner = Node::Let {
            name,
            value_ty: ty,
            value: Box::new(node),
            next: Box::new(released),
        };
        let hi = n + 1;
        assert(temps_spent(var));
        assert forall|k: int| 0 <= k < s.len() implies (#[trigger] s[k]).name != name by {
            let a = choose|a: u64| lo <= a < n && s[k].name == #[trigger] temp_name(a);
            if s[k].name == name {
                lemma_temps_differ(a, n);
            }
        }
        lemma_releases_after(s, name, -1);
        assert(passes(var, name, 0) && uses(var, name) == 1 && retains(var, name) == 0);
        lemma_released(s, var, name);
        assert(heap(ty) ==> kept(var, name, true) == 1);
        assert(is_spent(released, name, ty));
        assert(temps_spent(released));
        assert(temps_spent(inner));
        assert forall|i: int| 0 <= i < s.len() implies is_spent(
            inner,
            (#[trigger] s[i]).name,
            s[i].ty,
        ) by {
            let x = s[i].name;
            assert(x != name);
            assert(quiet(var, x));
            lemma_quiet(var, x);
            lemma_quiet_passes(var, x);
            lemma_releases_after(s, x, i);
            lemma_released(s, var, x);
            let k = if s[i].release {
                1int
            } else {
                0
            };
            assert(passes(released, x, k));
            assert(passes(inner, x, k));
            assert(uses(inner, x) == uses(node, x) + uses(released, x));
            assert(retains(inner, x) == retains(node, x) + retains(released, x));
            assert(kept(inner, x, true) == kept(node, x, true) + kept(released, x, true));
            assert(is_read_well(s[i], node));
        }
        assert forall|i: int| 0 <= i < s.len() implies temps_spent((#[trigger] s[i]).value)
            && hushed(s[i].value, lo, hi) by {
            lemma_still_hushed(s[i].value, lo, n as int, lo, hi);
        }
        assert(hushed(inner, lo, hi)) by {
            assert forall|m: u64| is_outside(m, lo, hi) implies quiet(
                inner,
                #[trigger] temp_name(m),
            ) by {
                let x = temp_name(m);
                assert(is_outside(m, lo, n as int));
                assert(quiet(node, x));
                if name == x {
                    lemma_temps_differ(n, m);
                }
                assert(quiet(var, x));
                lemma_quiet_passes(var, x);
                assert forall|i: int| 0 <= i < s.len() implies (#[trigger] s[i]).name != x by {
                    let a = choose|a: u64| lo <= a < n && s[i].name == #[trigger] temp_name(a);
                    if s[i].name == x {
                        lemma_temps_differ(a, m);
                    }
                }
                lemma_released(s, var, x);
            }
        }
        lemma_bind_spent(s, inner, lo, hi);
        lemma_bind_hushed(s, inner, lo, hi);
    } else {
        assert forall|i: int| 0 <= i < s.len() implies is_spent(
            node,
            (#[trigger] s[i]).name,
            s[i].ty,
        ) by {
            assert(!s[i].release);
            assert(is_read_well(s[i], node));
            assert(passes(node, s[i].name, 0));
        }
        lemma_bind_spent(s, node, lo, n as int);
        lemma_bind_hushed(s, node, lo, n as int);
    }
}

/// Whether rewritten operands are done with their temporaries, and those that are
/// hoisted are read once in their place.
spec fn operands_spent(h: Hold, hoisted: Seq<Hoist>, ops: Seq<Node>, n: int, next: int) -> bool {
    &&& hoists_spent(hoisted, n, next)
    &&& hoists_silent(hoisted)
    &&& forall|j: int|
        0 <= j < ops.len() ==> temps_spent(#[trigger] ops[j]) && hushed(ops[j], n, next)
    &&& forall|i: int|
        0 <= i < hoisted.len() ==> uses_all(ops, (#[trigger] hoisted[i]).name) == 1 && retains_all(
            ops,
            hoisted[i].name,
        ) == 0 && (hoisted[i].release ==> kept_all(h, ops, hoisted[i].name) == 0) && (
        !hoisted[i].release && heap(hoisted[i].ty) ==> kept_all(h, ops, hoisted[i].name) == 1)
}

/// Whether a rewritten operand is done with its temporaries. One that is kept is not
/// released, and one that holds a heap value and is not kept is.
spec fn operand_spent(o: Operand, held: bool, n: int) -> bool {
    &&& o.hoist matches Some(h) ==> temps_spent(h.value) && hushed(h.value, n, o.next as int)
        && (o.op matches Node::Var { name, ty } && name == h.name && ty == h.ty) && (h.release
        ==> !held && heap(h.ty)) && (!h.release && heap(h.ty) ==> held)
    &&& temps_spent(o.op)
    &&& hushed(o.op, n, o.next as int)
}

/// One more operand.
proof fn lemma_push_spent(h: Hold, hoisted: Seq<Hoist>, ops: Seq<Node>, o: Operand, n: int, mid: int)
    requires
        operands_fresh(hoisted, ops, n, mid),
        operands_spent(h, hoisted, ops, n, mid),
        n <= mid <= o.next,
        operand_spent(o, holds(h, ops.len() as int), mid),
        o.hoist matches Some(h) ==> is_numbered(h.name, mid, o.next as int),
    ensures
        operands_spent(h, add_hoist(hoisted, o.hoist), ops.push(o.op), n, o.next as int),
{
    let next = o.next as int;
    let all = add_hoist(hoisted, o.hoist);
    let every = ops.push(o.op);
    let k = hoisted.len() as int;
    assert(every.drop_last() =~= ops);
    assert forall|i: int| 0 <= i < all.len() implies temps_spent((#[trigger] all[i]).value)
        && hushed(all[i].value, n, next) by {
        if i < k {
            assert(all[i] == hoisted[i]);
            lemma_still_hushed(all[i].value, n, mid, n, next);
        } else {
            lemma_still_hushed(all[i].value, mid, next, n, next);
        }
    }
    assert forall|i: int, j: int| 0 <= i < j < all.len() implies quiet(
        (#[trigger] all[j]).value,
        (#[trigger] all[i]).name,
    ) by {
        assert(all[i] == hoisted[i]);
        assert(is_numbered(hoisted[i].name, n, mid));
        if j < k {
            assert(all[j] == hoisted[j]);
        } else {
            lemma_not_heard(all[j].value, mid, next, all[i].name, n, mid);
        }
    }
    assert forall|j: int| 0 <= j < every.len() implies temps_spent(#[trigger] every[j]) && hushed(
        every[j],
        n,
        next,
    ) by {
        if j < ops.len() {
            assert(every[j] == ops[j]);
            lemma_still_hushed(ops[j], n, mid, n, next);
        } else {
            lemma_still_hushed(o.op, mid, next, n, next);
        }
    }
    assert forall|i: int| 0 <= i < all.len() implies uses_all(every, (#[trigger] all[i]).name) == 1
        && retains_all(every, all[i].name) == 0 && (all[i].release ==> kept_all(
        h,
        every,
        all[i].name,
    ) == 0) && (!all[i].release && heap(all[i].ty) ==> kept_all(h, every, all[i].name) == 1) by {
        let x = all[i].name;
        let own = is_own(holds(h, ops.len() as int), o.op);
        assert(kept_all(h, every, x) == kept_all(h, ops, x) + kept(o.op, x, own));
        assert(every.last() == o.op);
        if i < k {
            assert(all[i] == hoisted[i]);
            assert(is_numbered(hoisted[i].name, n, mid));
            lemma_not_heard(o.op, mid, next, x, n, mid);
            lemma_quiet(o.op, x);
            lemma_quiet_own(o.op, x, own);
        } else {
            assert forall|j: int| 0 <= j < ops.len() implies quiet(#[trigger] ops[j], x) by {
                lemma_not_heard(ops[j], n, mid, x, mid, next);
            }
            lemma_all_quiet(ops, x);
            lemma_quiet_all(ops, x);
            lemma_quiet_held(h, ops, x);
            assert(uses(o.op, x) == 1 && retains(o.op, x) == 0);
            assert(node_ty(o.op) == all[i].ty);
        }
    }
}

proof fn lemma_hoisted_spent(v: Rewritten<Node>, ty: Ty, release: bool, held: bool, n: int)
    requires
        release ==> !held && heap(ty),
        !release && heap(ty) ==> held,
        temps_spent(v.to),
        hushed(v.to, n, v.next as int),
        n <= v.next < u64::MAX,
    ensures
        operand_spent(hoisted_operand(v.next, v.to, ty, release), held, n),
{
    let o = hoisted_operand(v.next, v.to, ty, release);
    lemma_still_hushed(v.to, n, v.next as int, n, o.next as int);
    assert forall|m: u64| is_outside(m, n, o.next as int) implies quiet(
        o.op,
        #[trigger] temp_name(m),
    ) by {
        if temp_name(v.next) == temp_name(m) {
            lemma_temps_differ(v.next, m);
        }
    }
}

proof fn lemma_read_spent(e: Node, vis: Seq<Seq<char>>, lo: int, hi: int)
    requires
        is_bare(e, vis),
        e is Var || e is String || e is FunctionRef,
    ensures
        temps_spent(e),
        hushed(e, lo, hi),
{
    assert forall|m: u64| is_outside(m, lo, hi) implies quiet(e, #[trigger] temp_name(m)) by {
        assert(is_temp(temp_name(m)));
    }
}

proof fn lemma_operand_spent(n: u64, e: Node, i: int, vis: Seq<Seq<char>>)
    requires
        0 <= i < operands_of(e).len(),
        is_bare(operands_of(e)[i], vis),
        n + numbers(operands_of(e)[i]) + 1 <= u64::MAX,
    ensures
        operand_spent(rewrite_operand(n, e, i), holds(hold_of(e), i), n as int),
    decreases e, 0nat,
{
    let arg = operands_of(e)[i];
    let ty = node_ty(arg);
    lemma_owned_fresh(n, arg, vis);
    lemma_owned_spent(n, arg, vis);
    let v = own(n, arg);
    let held = holds(hold_of(e), i);
    assert(held == takes_ownership(e, i));
    if needs_release(e, i) {
        lemma_hoisted_spent(v, ty, true, held, n as int);
    } else {
        let kept = if takes_ownership(e, i) || !heap(ty) {
            v
        } else {
            Rewritten { next: n, to: arg }
        };
        if arg is Var || arg is String {
            lemma_read_spent(arg, vis, n as int, n as int);
        }
        assert(temps_spent(kept.to) && hushed(kept.to, n as int, kept.next as int));
        if rewrite_operand(n, e, i).hoist is Some {
            lemma_hoisted_spent(kept, ty, false, held, n as int);
        }
    }
}

proof fn lemma_operands_len(n: u64, e: Node, k: nat)
    requires
        k <= operands_of(e).len(),
    ensures
        rewrite_operands(n, e, k).ops.len() == k,
    decreases k,
{
    if k > 0 {
        lemma_operands_len(n, e, (k - 1) as nat);
    }
}

proof fn lemma_operands_spent(n: u64, e: Node, k: nat, vis: Seq<Seq<char>>)
    requires
        k <= operands_of(e).len(),
        forall|i: int|
            0 <= i < operands_of(e).len() ==> is_bare(#[trigger] operands_of(e)[i], vis),
        n + numbers_all(operands_of(e).take(k as int)) <= u64::MAX,
    ensures
        operands_spent(
            hold_of(e),
            rewrite_operands(n, e, k).hoisted,
            rewrite_operands(n, e, k).ops,
            n as int,
            rewrite_operands(n, e, k).next as int,
        ),
    decreases e, k,
{
    if k > 0 {
        let s = operands_of(e);
        assert(s.take(k as int).drop_last() =~= s.take(k - 1));
        assert(s.take(k as int).last() == s[k - 1]);
        lemma_operands_fresh(n, e, (k - 1) as nat, vis);
        lemma_operands_spent(n, e, (k - 1) as nat, vis);
        let init = rewrite_operands(n, e, (k - 1) as nat);
        assert(is_bare(s[k - 1], vis));
        lemma_operand_fresh(init.next, e, k - 1, vis);
        lemma_operand_spent(init.next, e, k - 1, vis);
        let o = rewrite_operand(init.next, e, k - 1);
        lemma_operands_len(n, e, (k - 1) as nat);
        lemma_push_spent(hold_of(e), init.hoisted, init.ops, o, n as int, init.next as int);
    }
}

proof fn lemma_atom_spent(n: u64, arg: Node, vis: Seq<Seq<char>>)
    requires
        is_bare(arg, vis),
        n + numbers(arg) + 1 <= u64::MAX,
    ensures
        operand_spent(atomize_one(n, arg), true, n as int),
    decreases arg, operands_of(arg).len() + 4,
{
    lemma_owned_fresh(n, arg, vis);
    lemma_owned_spent(n, arg, vis);
    lemma_hoisted_spent(own(n, arg), node_ty(arg), false, true, n as int);
    if arg is Var {
        lemma_read_spent(arg, vis, n as int, n as int);
    }
}

proof fn lemma_atoms_spent(n: u64, args: Seq<Node>, vis: Seq<Seq<char>>)
    requires
        unmanaged_all(args),
        apart_all(args, vis),
        n + numbers_all(args) <= u64::MAX,
    ensures
        operands_spent(
            Hold::All,
            atomize(n, args).hoisted,
            atomize(n, args).ops,
            n as int,
            atomize(n, args).next as int,
        ),
        forall|i: int|
            0 <= i < atomize(n, args).hoisted.len() ==> !(#[trigger] atomize(
                n,
                args,
            ).hoisted[i]).release,
    decreases args, 0nat,
{
    if args.len() > 0 {
        lemma_atoms_fresh(n, args.drop_last(), vis);
        lemma_atoms_spent(n, args.drop_last(), vis);
        let init = atomize(n, args.drop_last());
        lemma_atom_fresh(init.next, args.last(), vis);
        lemma_atom_spent(init.next, args.last(), vis);
        let o = atomize_one(init.next, args.last());
        lemma_push_spent(Hold::All, init.hoisted, init.ops, o, n as int, init.next as int);
        let all = atomize(n, args).hoisted;
        assert(all == add_hoist(init.hoisted, o.hoist));
        assert forall|i: int| 0 <= i < all.len() implies !(#[trigger] all[i]).release by {
            if i < init.hoisted.len() {
                assert(all[i] == init.hoisted[i]);
            }
        }
    }
}

/// Whether a rewritten expression is done with its temporaries, which have numbers
/// from `n` on.
spec fn is_done(r: Rewritten<Node>, n: int) -> bool {
    temps_spent(r.to) && hushed(r.to, n, r.next as int)
}

proof fn lemma_push_arms(s: Seq<ArmNode>, mid: int, last: ArmNode, lo: int, hi: int)
    requires
        arms_hushed(s, lo, mid),
        arm_temps_spent(s),
        arm_hushed(last, lo, hi),
        arm_temp_spent(last),
        mid <= hi,
    ensures
        arms_hushed(s.push(last), lo, hi),
        arm_temps_spent(s.push(last)),
{
    let all = s.push(last);
    assert(all.drop_last() =~= s);
    assert forall|m: u64| is_outside(m, lo, hi) implies arms_quiet(
        all,
        #[trigger] temp_name(m),
    ) by {
        assert(is_outside(m, lo, mid));
        assert(arms_quiet(s, temp_name(m)));
        assert(arm_quiet(last, temp_name(m)));
    }
}

proof fn lemma_match_arm_spent(n: u64, arm: ArmNode, vis: Seq<Seq<char>>)
    requires
        unmanaged_arm(arm),
        apart_arm(arm, vis),
        n + numbers_arm(arm) <= u64::MAX,
    ensures
        arm_temp_spent(own_match_arm(n, arm).to),
        arm_hushed(own_match_arm(n, arm).to, n as int, own_match_arm(n, arm).next as int),
    decreases arm, 0nat,
{
    let inner = pattern_vis(vis, arm.pattern);
    let r = own_match_arm(n, arm);
    match arm.guard {
        Some(guard) => {
            let g = own(n, *guard);
            lemma_owned_fresh(n, *guard, inner);
            lemma_owned_spent(n, *guard, inner);
            lemma_owned_fresh(g.next, *arm.body, inner);
            lemma_owned_spent(g.next, *arm.body, inner);
            let b = own(g.next, *arm.body);
            lemma_still_hushed(g.to, n as int, g.next as int, n as int, r.next as int);
            lemma_still_hushed(b.to, g.next as int, r.next as int, n as int, r.next as int);
        },
        None => {
            lemma_owned_fresh(n, *arm.body, inner);
            lemma_owned_spent(n, *arm.body, inner);
        },
    }
}

proof fn lemma_match_arms_spent(n: u64, s: Seq<ArmNode>, vis: Seq<Seq<char>>)
    requires
        unmanaged_arms(s),
        apart_arms(s, vis),
        n + numbers_arms(s) <= u64::MAX,
    ensures
        arm_temps_spent(own_match_arms(n, s).to),
        arms_hushed(own_match_arms(n, s).to, n as int, own_match_arms(n, s).next as int),
    decreases s, 0nat,
{
    if s.len() > 0 {
        lemma_match_arms_fresh(n, s.drop_last(), vis);
        lemma_match_arms_spent(n, s.drop_last(), vis);
        let init = own_match_arms(n, s.drop_last());
        lemma_match_arm_fresh(init.next, s.last(), vis);
        lemma_match_arm_spent(init.next, s.last(), vis);
        let last = own_match_arm(init.next, s.last());
        assert forall|m: u64| is_outside(m, n as int, last.next as int) implies arm_quiet(
            last.to,
            #[trigger] temp_name(m),
        ) by {
            assert(is_outside(m, init.next as int, last.next as int));
        }
        lemma_push_arms(init.to, init.next as int, last.to, n as int, last.next as int);
    }
}

proof fn lemma_catch_body_spent(n: u64, e: Node, k: u64, next: u64, lo: u64)
    requires
        temps_spent(e),
        hushed(e, lo as int, n as int),
        ranged(e, lo as int, n as int),
        k < lo <= n <= next,
        next + tails(e) <= u64::MAX,
    ensures
        temps_spent(release_tails(next, e, temp_name(k), caught_ty()).to),
        hushed(
            release_tails(next, e, temp_name(k), caught_ty()).to,
            k as int,
            release_tails(next, e, temp_name(k), caught_ty()).next as int,
        ),
{
    let err = temp_name(k);
    let t = release_tails(next, e, err, caught_ty());
    lemma_wider(e, lo as int, n as int, lo as int, next as int);
    assert(is_outside(k, lo as int, n as int));
    assert(absent(e, temp_name(k)));
    assert(is_older(err, next as int)) by {
        assert forall|m: u64| m >= next implies err != #[trigger] temp_name(m) by {
            if err == temp_name(m) {
                lemma_temps_differ(k, m);
            }
        }
    }
    lemma_tails_spent(next, e, err, caught_ty(), lo as int);
    lemma_tails_number(next, e, err, caught_ty());
    assert forall|m: u64| is_outside(m, k as int, t.next as int) implies quiet(
        t.to,
        #[trigger] temp_name(m),
    ) by {
        if err == temp_name(m) {
            lemma_temps_differ(k, m);
        }
        assert(is_outside(m, lo as int, n as int));
        assert(quiet(e, temp_name(m)));
        lemma_tails_same(next, e, err, caught_ty(), m);
    }
}

proof fn lemma_catch_arm_spent(n: u64, arm: ArmNode, k: u64, vis: Seq<Seq<char>>)
    requires
        unmanaged_arm(arm),
        apart_arm(arm, vis),
        k < n,
        n + numbers_arm(arm) + tails_arm(arm) <= u64::MAX,
    ensures
        arm_temp_spent(own_catch_arm(n, arm, temp_name(k)).to),
        arm_hushed(
            own_catch_arm(n, arm, temp_name(k)).to,
            k as int,
            own_catch_arm(n, arm, temp_name(k)).next as int,
        ),
    decreases arm, 0nat,
{
    let err = temp_name(k);
    let inner = pattern_vis(vis, arm.pattern);
    let b = own(n, *arm.body);
    let r = own_catch_arm(n, arm, err);
    lemma_owned_fresh(n, *arm.body, inner);
    lemma_owned_spent(n, *arm.body, inner);
    match arm.guard {
        Some(guard) => {
            let g = own(b.next, *guard);
            lemma_owned_fresh(b.next, *guard, inner);
            lemma_owned_spent(b.next, *guard, inner);
            lemma_catch_body_spent(b.next, b.to, k, g.next, n);
            lemma_tails_number(g.next, b.to, err, caught_ty());
            lemma_still_hushed(g.to, b.next as int, g.next as int, k as int, r.next as int);
            assert forall|m: u64| is_outside(m, k as int, r.next as int) implies arm_quiet(
                r.to,
                #[trigger] temp_name(m),
            ) by {
                assert(quiet(*r.to.body, temp_name(m)));
                assert(quiet(g.to, temp_name(m)));
            }
        },
        None => {
            lemma_catch_body_spent(b.next, b.to, k, b.next, n);
            assert forall|m: u64| is_outside(m, k as int, r.next as int) implies arm_quiet(
                r.to,
                #[trigger] temp_name(m),
            ) by {
                assert(quiet(*r.to.body, temp_name(m)));
            }
        },
    }
}

proof fn lemma_catch_arms_spent(n: u64, s: Seq<ArmNode>, k: u64, vis: Seq<Seq<char>>)
    requires
        unmanaged_arms(s),
        apart_arms(s, vis),
        k < n,
        n + numbers_arms(s) + tails_arms(s) <= u64::MAX,
    ensures
        arm_temps_spent(own_catch_arms(n, s, temp_name(k)).to),
        arms_hushed(
            own_catch_arms(n, s, temp_name(k)).to,
            k as int,
            own_catch_arms(n, s, temp_name(k)).next as int,
        ),
    decreases s, 0nat,
{
    if s.len() > 0 {
        let err = temp_name(k);
        let front = s.drop_last();
        lemma_catch_arms_fresh(n, front, err, vis);
        lemma_catch_arms_spent(n, front, k, vis);
        let init = own_catch_arms(n, front, err);
        lemma_catch_arm_fresh(init.next, s.last(), err, vis);
        lemma_catch_arm_spent(init.next, s.last(), k, vis);
        let last = own_catch_arm(init.next, s.last(), err);
        lemma_push_arms(init.to, init.next as int, last.to, k as int, last.next as int);
    }
}

/// A call or a jump over rewritten operands.
proof fn lemma_over_spent(node: Node, hoisted: Seq<Hoist>, args: Seq<Node>, lo: int, hi: int)
    requires
        operands_spent(Hold::All, hoisted, args, lo, hi),
        node matches Node::Call { args: s, .. } ==> s == args,
        node matches Node::TailSelfCall { args: s, .. } ==> s == args,
        node is Call || node is TailSelfCall,
        node matches Node::Call { callee, .. } ==> temps_spent(*callee) && hushed(*callee, lo, hi)
            && forall|i: int|
            0 <= i < hoisted.len() ==> quiet(*callee, (#[trigger] hoisted[i]).name),
    ensures
        temps_spent(node),
        hushed(node, lo, hi),
        hoists_read(hoisted, node),
{
    lemma_all_spent(args);
    assert forall|m: u64| is_outside(m, lo, hi) implies quiet(node, #[trigger] temp_name(m)) by {
        let x = temp_name(m);
        assert forall|i: int| 0 <= i < args.len() implies quiet(#[trigger] args[i], x) by {
            assert(hushed(args[i], lo, hi));
        }
        lemma_all_quiet(args, x);
    }
    assert forall|i: int| 0 <= i < hoisted.len() implies is_read_well(
        #[trigger] hoisted[i],
        node,
    ) by {
        if let Node::Call { callee, .. } = node {
            lemma_quiet(*callee, hoisted[i].name);
        }
    }
}

proof fn lemma_call_spent(n: u64, e: Node, vis: Seq<Seq<char>>)
    requires
        e is Call,
        is_bare(e, vis),
        n + numbers(e) <= u64::MAX,
    ensures
        is_done(own_call(n, e), n as int),
    decreases e, operands_of(e).len() + 2,
{
    if let Node::Call { callee, args, ret } = e {
        lemma_all_bare(args, vis);
        let r = rewrite_operands(n, e, args.len());
        assert(args.take(args.len() as int) =~= args);
        lemma_operands_fresh(n, e, args.len(), vis);
        lemma_operands_spent(n, e, args.len(), vis);
        if *callee is FunctionRef || *callee is Var {
            let direct = Node::Call { callee, args: r.ops, ret };
            lemma_read_spent(*callee, vis, n as int, r.next as int);
            assert forall|i: int| 0 <= i < r.hoisted.len() implies quiet(
                *callee,
                (#[trigger] r.hoisted[i]).name,
            ) by {
                assert(is_numbered(r.hoisted[i].name, n as int, r.next as int));
                lemma_read_spent(*callee, vis, 0, 0);
                let a = choose|a: u64|
                    n <= a < r.next && r.hoisted[i].name == #[trigger] temp_name(a);
                assert(is_outside(a, 0, 0));
                assert(quiet(*callee, temp_name(a)));
            }
            lemma_over_spent(direct, r.hoisted, r.ops, n as int, r.next as int);
            lemma_wrap_spent(r.next, r.hoisted, direct, n as int);
        } else {
            lemma_other_call_spent(n, e, vis);
        }
    }
}

proof fn lemma_other_call_spent(n: u64, e: Node, vis: Seq<Seq<char>>)
    requires
        e matches Node::Call { callee, .. } && !(*callee is FunctionRef || *callee is Var),
        is_bare(e, vis),
        n + numbers(e) <= u64::MAX,
    ensures
        is_done(own_call(n, e), n as int),
    decreases e, operands_of(e).len() + 1,
{
    if let Node::Call { callee, args, ret } = e {
        lemma_all_bare(args, vis);
        let r = rewrite_operands(n, e, args.len());
        assert(args.take(args.len() as int) =~= args);
        lemma_operands_fresh(n, e, args.len(), vis);
        lemma_operands_spent(n, e, args.len(), vis);
        let ty = node_ty(*callee);
        let v = own(r.next, *callee);
        lemma_owned_fresh(r.next, *callee, vis);
        lemma_owned_spent(r.next, *callee, vis);
        let name = temp_name(v.next);
        let h = Hoist { name, ty, value: v.to, release: true };
        let all = seq![h] + r.hoisted;
        let hi = v.next + 1;
        let called = Node::Var { name, ty };
        let call = Node::Call { callee: Box::new(called), args: r.ops, ret };
        assert(is_numbered(name, v.next as int, hi));
        lemma_call_hoists(n, e, vis);
        assert(hoists_spent(all, n as int, hi)) by {
            assert forall|i: int| 0 <= i < all.len() implies temps_spent((#[trigger] all[i]).value)
                && hushed(all[i].value, n as int, hi) by {
                if i == 0 {
                    lemma_still_hushed(v.to, r.next as int, v.next as int, n as int, hi);
                } else {
                    let g = r.hoisted[i - 1];
                    assert(all[i] == g);
                    lemma_still_hushed(g.value, n as int, r.next as int, n as int, hi);
                }
            }
        }
        assert(hoists_silent(all)) by {
            assert forall|i: int, j: int| 0 <= i < j < all.len() implies quiet(
                (#[trigger] all[j]).value,
                (#[trigger] all[i]).name,
            ) by {
                let g = r.hoisted[j - 1];
                assert(all[j] == g);
                if i == 0 {
                    lemma_not_heard(g.value, n as int, r.next as int, name, v.next as int, hi);
                } else {
                    assert(all[i] == r.hoisted[i - 1]);
                }
            }
        }
        assert(operands_spent(Hold::All, r.hoisted, r.ops, n as int, hi)) by {
            assert forall|i: int| 0 <= i < r.hoisted.len() implies temps_spent(
                (#[trigger] r.hoisted[i]).value,
            ) && hushed(r.hoisted[i].value, n as int, hi) by {
                lemma_still_hushed(r.hoisted[i].value, n as int, r.next as int, n as int, hi);
            }
            assert forall|j: int| 0 <= j < r.ops.len() implies temps_spent(#[trigger] r.ops[j])
                && hushed(r.ops[j], n as int, hi) by {
                lemma_still_hushed(r.ops[j], n as int, r.next as int, n as int, hi);
            }
        }
        assert forall|m: u64| is_outside(m, n as int, hi) implies quiet(
            called,
            #[trigger] temp_name(m),
        ) by {
            if name == temp_name(m) {
                lemma_temps_differ(v.next, m);
            }
        }
        assert forall|i: int| 0 <= i < r.hoisted.len() implies quiet(
            called,
            (#[trigger] r.hoisted[i]).name,
        ) by {
            assert(is_numbered(r.hoisted[i].name, n as int, r.next as int));
            let a = choose|a: u64| n <= a < r.next && r.hoisted[i].name == #[trigger] temp_name(a);
            if r.hoisted[i].name == name {
                lemma_temps_differ(a, v.next);
            }
        }
        lemma_over_spent(call, r.hoisted, r.ops, n as int, hi);
        assert(hoists_read(all, call)) by {
            assert forall|i: int| 0 <= i < all.len() implies is_read_well(
                #[trigger] all[i],
                call,
            ) by {
                if i > 0 {
                    assert(all[i] == r.hoisted[i - 1]);
                } else {
                    assert forall|j: int| 0 <= j < r.ops.len() implies quiet(
                        #[trigger] r.ops[j],
                        name,
                    ) by {
                        lemma_not_heard(
                            r.ops[j],
                            n as int,
                            r.next as int,
                            name,
                            v.next as int,
                            hi,
                        );
                    }
                    lemma_all_quiet(r.ops, name);
                    lemma_quiet_all(r.ops, name);
                    assert(kept(called, name, false) == 0 && retains(called, name) == 0);
                }
            }
        }
        lemma_wrap_spent(next_count(v.next), all, call, n as int);
    }
}

/// A node over rewritten operands.
proof fn lemma_built_spent(e: Node, hoisted: Seq<Hoist>, ops: Seq<Node>, lo: int, hi: int)
    requires
        ops.len() == operands_of(e).len(),
        operands_spent(hold_of(e), hoisted, ops, lo, hi),
        e is Intrinsic || e is Platform || e is Binary || e is Concat || e is Array
            || e is EnumValue || e is RecordValue || e is FieldAccess || e is CharFromCode
            || e is StringFromChar,
    ensures
        temps_spent(with_operands(e, ops)),
        hushed(with_operands(e, ops), lo, hi),
        hoists_read(hoisted, with_operands(e, ops)),
        is_plain_node(with_operands(e, ops)),
{
    let node = with_operands(e, ops);
    lemma_all_spent(ops);
    if ops.len() > 0 {
        assert(temps_spent(ops[0]));
    }
    if ops.len() > 1 {
        assert(temps_spent(ops[1]));
    }
    assert forall|m: u64| is_outside(m, lo, hi) implies quiet(node, #[trigger] temp_name(m)) by {
        let x = temp_name(m);
        assert forall|i: int| 0 <= i < ops.len() implies quiet(#[trigger] ops[i], x) by {
            assert(hushed(ops[i], lo, hi));
        }
        lemma_all_quiet(ops, x);
        if ops.len() > 0 {
            assert(quiet(ops[0], x));
        }
        if ops.len() > 1 {
            assert(quiet(ops[1], x));
        }
    }
    assert forall|i: int| 0 <= i < hoisted.len() implies is_read_well(
        #[trigger] hoisted[i],
        node,
    ) by {
        lemma_built_counts(e, ops, hoisted[i].name);
    }
}

proof fn lemma_built_counts(e: Node, ops: Seq<Node>, x: Seq<char>)
    requires
        ops.len() == operands_of(e).len(),
        e is Intrinsic || e is Platform || e is Binary || e is Concat || e is Array
            || e is EnumValue || e is RecordValue || e is FieldAccess || e is CharFromCode
            || e is StringFromChar,
    ensures
        uses(with_operands(e, ops), x) == uses_all(ops, x),
        retains(with_operands(e, ops), x) == retains_all(ops, x),
        kept(with_operands(e, ops), x, true) == kept_all(hold_of(e), ops, x),
{
    let none = Seq::<Node>::empty();
    let h = hold_of(e);
    assert(uses_all(none, x) == 0 && retains_all(none, x) == 0 && kept_all(h, none, x) == 0);
    if e is Binary || e is Concat {
        let first = seq![ops[0]];
        assert(ops.drop_last() =~= first);
        assert(first.drop_last() =~= none);
        assert(first.last() == ops[0]);
        assert(uses_all(first, x) == uses(ops[0], x));
        assert(retains_all(first, x) == retains(ops[0], x));
        assert(kept_all(h, first, x) == kept(ops[0], x, is_own(holds(h, 0), ops[0])));
        assert(ops.last() == ops[1]);
    } else if e is FieldAccess || e is CharFromCode || e is StringFromChar {
        assert(ops.drop_last() =~= none);
        assert(ops.last() == ops[0]);
    }
}

proof fn lemma_params_spent(n: u64, params: Seq<Bind>, body: Node, lo: int)
    requires
        temps_spent(body),
        hushed(body, lo, n as int),
        scopes_apart(body),
        ranged(body, lo, n as int),
        lo <= n,
        n + params.len() * tails(body) <= u64::MAX,
        forall|i: int|
            0 <= i < params.len() ==> absent(body, (#[trigger] params[i]).name) && !is_temp(
                params[i].name,
            ),
    ensures
        is_done(release_params(n, params, body), lo),
    decreases params.len(),
{
    reveal(release_params);
    if params.len() > 0 {
        let front = params.drop_last();
        let t = tails(body);
        assert(params.len() * t == (params.len() - 1) * t + t) by (nonlinear_arith)
            requires
                params.len() > 0,
        ;
        assert(front.len() * t == (params.len() - 1) * t);
        assert forall|i: int| 0 <= i < front.len() implies absent(
            body,
            (#[trigger] front[i]).name,
        ) && !is_temp(front[i].name) by {
            assert(front[i] == params[i]);
        }
        lemma_params_spent(n, front, body, lo);
        lemma_params_fresh(n, front, body, lo);
        let init = release_params(n, front, body);
        let p = params[params.len() - 1];
        if heap(p.ty) {
            lemma_params_absent(n, front, body, p.name);
            assert(is_older(p.name, init.next as int)) by {
                assert forall|m: u64| m >= init.next implies p.name != #[trigger] temp_name(
                    m,
                ) by {
                    assert(is_temp(temp_name(m)));
                }
            }
            lemma_tails_done(init.next, init.to, p.name, p.ty, lo);
        }
    }
}

/// Releases of a name of the program at the tails of an expression that is done
/// with its temporaries.
proof fn lemma_tails_done(n: u64, e: Node, y: Seq<char>, ty: Ty, lo: int)
    requires
        temps_spent(e),
        hushed(e, lo, n as int),
        ranged(e, lo, n as int),
        lo <= n,
        n + tails(e) <= u64::MAX,
        absent(e, y),
        !is_temp(y),
    ensures
        is_done(release_tails(n, e, y, ty), lo),
{
    let r = release_tails(n, e, y, ty);
    assert(is_older(y, n as int)) by {
        assert forall|m: u64| m >= n implies y != #[trigger] temp_name(m) by {
            assert(is_temp(temp_name(m)));
        }
    }
    lemma_tails_spent(n, e, y, ty, lo);
    lemma_tails_number(n, e, y, ty);
    assert forall|m: u64| is_outside(m, lo, r.next as int) implies quiet(
        r.to,
        #[trigger] temp_name(m),
    ) by {
        assert(is_temp(temp_name(m)));
        assert(is_outside(m, lo, n as int));
        assert(quiet(e, temp_name(m)));
        lemma_tails_same(n, e, y, ty, m);
    }
}

/// The owned form of an expression is done with its temporaries.
pub proof fn lemma_owned_spent(n: u64, e: Node, vis: Seq<Seq<char>>)
    requires
        is_bare(e, vis),
        n + numbers(e) <= u64::MAX,
    ensures
        temps_spent(own(n, e).to),
        hushed(own(n, e).to, n as int, own(n, e).next as int),
    decreases e, operands_of(e).len() + 3,
{
    match e {
        Node::Var { .. } => {
            let to = own(n, e).to;
            lemma_read_spent(e, vis, n as int, n as int);
            assert(temps_spent(to));
            assert forall|m: u64| is_outside(m, n as int, n as int) implies quiet(
                to,
                #[trigger] temp_name(m),
            ) by {
                assert(quiet(e, temp_name(m)));
            }
        },
        Node::Let { .. } => lemma_let_spent(n, e, vis),
        Node::Call { .. } => {
            lemma_call_spent(n, e, vis);
            assert(own(n, e) == own_call(n, e));
        },
        Node::TailSelfCall { args, ty } => {
            let r = atomize(n, args);
            lemma_atoms_fresh(n, args, vis);
            lemma_atoms_spent(n, args, vis);
            let call = Node::TailSelfCall { args: r.ops, ty };
            lemma_over_spent(call, r.hoisted, r.ops, n as int, r.next as int);
            assert forall|i: int| 0 <= i < r.hoisted.len() implies is_spent(
                call,
                (#[trigger] r.hoisted[i]).name,
                r.hoisted[i].ty,
            ) by {
                assert(is_read_well(r.hoisted[i], call));
                assert(!r.hoisted[i].release);
                assert(passes(call, r.hoisted[i].name, 0));
            }
            lemma_bind_spent(r.hoisted, call, n as int, r.next as int);
            lemma_bind_hushed(r.hoisted, call, n as int, r.next as int);
        },
        Node::Intrinsic { .. } | Node::Platform { .. } | Node::Binary { .. } | Node::Concat { .. }
        | Node::Array { .. } | Node::EnumValue { .. } | Node::RecordValue { .. }
        | Node::FieldAccess { .. } | Node::CharFromCode(_) | Node::StringFromChar(_) => {
            lemma_taken_bare(e, vis);
            let k = operands_of(e).len();
            let r = rewrite_operands(n, e, k);
            lemma_operand_numbers(e);
            lemma_operands_fresh(n, e, k, vis);
            lemma_operands_spent(n, e, k, vis);
            lemma_built_spent(e, r.hoisted, r.ops, n as int, r.next as int);
            lemma_wrap_spent(r.next, r.hoisted, with_operands(e, r.ops), n as int);
        },
        Node::If { .. } => lemma_if_spent(n, e, vis),
        Node::Match { .. } => lemma_match_spent(n, e, vis),
        Node::Try { .. } => lemma_try_spent(n, e, vis),
        Node::Question { value, .. } => {
            lemma_owned_spent(n, *value, vis);
            let v = own(n, *value);
            let to = own(n, e).to;
            assert forall|m: u64| is_outside(m, n as int, v.next as int) implies quiet(
                to,
                #[trigger] temp_name(m),
            ) by {
                assert(quiet(v.to, temp_name(m)));
            }
        },
        Node::Throw { .. } => lemma_throw_spent(n, e, vis),
        Node::Panic { message } => {
            let to = own(n, e).to;
            if *message is Var {
                lemma_read_spent(*message, vis, n as int, n as int);
                assert forall|m: u64| is_outside(m, n as int, n as int) implies quiet(
                    to,
                    #[trigger] temp_name(m),
                ) by {
                    assert(quiet(*message, temp_name(m)));
                }
            } else {
                lemma_owned_spent(n, *message, vis);
                let v = own(n, *message);
                assert forall|m: u64| is_outside(m, n as int, v.next as int) implies quiet(
                    to,
                    #[trigger] temp_name(m),
                ) by {
                    assert(quiet(v.to, temp_name(m)));
                }
            }
        },
        Node::Fn { .. } => lemma_lambda_spent(n, e, vis),
        _ => {},
    }
}

proof fn lemma_if_spent(n: u64, e: Node, vis: Seq<Seq<char>>)
    requires
        e is If,
        is_bare(e, vis),
        n + numbers(e) <= u64::MAX,
    ensures
        is_done(own(n, e), n as int),
    decreases e, 0nat,
{
    if let Node::If { cond, then, els, .. } = e {
        let c = own(n, *cond);
        let t = own(c.next, *then);
        let f = own(t.next, *els);
        lemma_owned_fresh(n, *cond, vis);
        lemma_owned_fresh(c.next, *then, vis);
        lemma_owned_fresh(t.next, *els, vis);
        lemma_owned_spent(n, *cond, vis);
        lemma_owned_spent(c.next, *then, vis);
        lemma_owned_spent(t.next, *els, vis);
        let to = own(n, e).to;
        assert forall|m: u64| is_outside(m, n as int, f.next as int) implies quiet(
            to,
            #[trigger] temp_name(m),
        ) by {
            assert(is_outside(m, n as int, c.next as int));
            assert(quiet(c.to, temp_name(m)));
            assert(is_outside(m, c.next as int, t.next as int));
            assert(quiet(t.to, temp_name(m)));
            assert(is_outside(m, t.next as int, f.next as int));
            assert(quiet(f.to, temp_name(m)));
        }
    }
}

proof fn lemma_let_spent(n: u64, e: Node, vis: Seq<Seq<char>>)
    requires
        e is Let,
        is_bare(e, vis),
        n + numbers(e) <= u64::MAX,
    ensures
        is_done(own(n, e), n as int),
    decreases e, 0nat,
{
    if let Node::Let { name, value_ty, value, next } = e {
        let v = own(n, *value);
        let b = own(v.next, *next);
        let inner = vis.push(name);
        lemma_owned_fresh(n, *value, vis);
        lemma_owned_fresh(v.next, *next, inner);
        lemma_owned_spent(n, *value, vis);
        lemma_owned_spent(v.next, *next, inner);
        assert(inner[vis.len() as int] == name);
        visible_names_are_not_bound(*next, inner, name);
        lemma_owned_absent(v.next, *next, name);
        let r = own(n, e);
        if heap(value_ty) {
            lemma_tails_number(b.next, b.to, name, value_ty);
            lemma_tails_done(b.next, b.to, name, value_ty, v.next as int);
        }
        if let Node::Let { next: scope, .. } = r.to {
            assert forall|m: u64| is_outside(m, n as int, r.next as int) implies quiet(
                r.to,
                #[trigger] temp_name(m),
            ) by {
                assert(is_outside(m, n as int, v.next as int));
                assert(quiet(v.to, temp_name(m)));
                assert(is_outside(m, v.next as int, r.next as int));
                assert(quiet(*scope, temp_name(m)));
            }
        }
    }
}

proof fn lemma_match_spent(n: u64, e: Node, vis: Seq<Seq<char>>)
    requires
        e is Match,
        is_bare(e, vis),
        n + numbers(e) <= u64::MAX,
    ensures
        is_done(own(n, e), n as int),
    decreases e, 0nat,
{
    if let Node::Match { scrutinee, arms, ty } = e {
        let a = own_match_arms(n, arms);
        lemma_match_arms_fresh(n, arms, vis);
        lemma_match_arms_spent(n, arms, vis);
        let r = own(n, e);
        assert(r == own_match(n, e));
        if *scrutinee is Var {
            lemma_read_spent(*scrutinee, vis, n as int, a.next as int);
            assert forall|m: u64| is_outside(m, n as int, a.next as int) implies quiet(
                r.to,
                #[trigger] temp_name(m),
            ) by {
                assert(quiet(*scrutinee, temp_name(m)));
                assert(arms_quiet(a.to, temp_name(m)));
            }
        } else {
            let sty = node_ty(*scrutinee);
            let v = own(a.next, *scrutinee);
            lemma_owned_fresh(a.next, *scrutinee, vis);
            lemma_owned_spent(a.next, *scrutinee, vis);
            let name = temp_name(v.next);
            let k = next_count(v.next);
            let t = release_arm_tails(k, a.to, name, sty);
            lemma_arm_tails_number(k, a.to, name, sty);
            assert forall|m: u64| is_outside(m, n as int, k as int) implies arms_absent(
                a.to,
                #[trigger] temp_name(m),
            ) by {
                assert(is_outside(m, n as int, a.next as int));
            }
            assert(is_outside(v.next, n as int, a.next as int));
            assert(arms_absent(a.to, temp_name(v.next)));
            assert(is_older(name, k as int)) by {
                assert forall|m: u64| m >= k implies name != #[trigger] temp_name(m) by {
                    if name == temp_name(m) {
                        lemma_temps_differ(v.next, m);
                    }
                }
            }
            lemma_arm_tails_spent(k, a.to, name, sty, n as int);
            assert(arms_quiet(a.to, temp_name(v.next)));
            lemma_quiet_arms_pass(a.to, name);
            arms_get_one_release(k, a.to, name, sty, 0);
            let read = Node::Var { name, ty: sty };
            let inner = Node::Match { scrutinee: Box::new(read), arms: t.to, ty };
            assert(temps_spent(read));
            assert(temps_spent(inner));
            assert(passes(inner, name, 1));
            lemma_quiet_arms(a.to, name);
            lemma_arm_tails_same(k, a.to, name, sty, v.next);
            assert(kept(read, name, false) == 0 && retains(read, name) == 0);
            assert(is_spent(inner, name, sty));
            assert forall|m: u64| is_outside(m, n as int, r.next as int) implies quiet(
                r.to,
                #[trigger] temp_name(m),
            ) by {
                if name == temp_name(m) {
                    lemma_temps_differ(v.next, m);
                }
                assert(is_outside(m, n as int, a.next as int));
                assert(arms_quiet(a.to, temp_name(m)));
                assert(is_outside(m, k as int, t.next as int));
                lemma_arm_tails_same(k, a.to, name, sty, m);
                assert(is_outside(m, a.next as int, v.next as int));
                assert(quiet(v.to, temp_name(m)));
                assert(quiet(read, temp_name(m)));
                assert(quiet(inner, temp_name(m)));
            }
        }
    }
}

proof fn lemma_throw_spent(n: u64, e: Node, vis: Seq<Seq<char>>)
    requires
        e is Throw,
        is_bare(e, vis),
        n + numbers(e) <= u64::MAX,
    ensures
        is_done(own(n, e), n as int),
    decreases e, 0nat,
{
    if let Node::Throw { value } = e {
        let v = own(n, *value);
        lemma_owned_fresh(n, *value, vis);
        lemma_owned_spent(n, *value, vis);
        let r = own(n, e);
        let name = temp_name(v.next);
        let ty = node_ty(v.to);
        let read = Node::Var { name, ty };
        let thrown = Node::Throw { value: Box::new(read) };
        assert(temps_spent(read));
        assert(temps_spent(thrown));
        assert(uses(read, name) == 1 && retains(read, name) == 0);
        assert(passes(thrown, name, 0) && uses(thrown, name) == 1 && retains(thrown, name) == 0);
        assert(heap(ty) ==> kept(read, name, true) == 1);
        assert(kept(thrown, name, true) == kept(read, name, true));
        assert(is_spent(thrown, name, ty));
        assert forall|m: u64| is_outside(m, n as int, r.next as int) implies quiet(
            r.to,
            #[trigger] temp_name(m),
        ) by {
            assert(is_outside(m, n as int, v.next as int));
            assert(quiet(v.to, temp_name(m)));
            if r.to is Let {
                if name == temp_name(m) {
                    lemma_temps_differ(v.next, m);
                }
                assert(quiet(read, temp_name(m)));
                assert(quiet(thrown, temp_name(m)));
            }
        }
    }
}

proof fn lemma_try_spent(n: u64, e: Node, vis: Seq<Seq<char>>)
    requires
        e is Try,
        is_bare(e, vis),
        n + numbers(e) <= u64::MAX,
    ensures
        is_done(own(n, e), n as int),
    decreases e, 0nat,
{
    if let Node::Try { body, arms, ty, err_name } = e {
        let err = temp_name(n);
        let k = next_count(n);
        let a = own_catch_arms(k, arms, err);
        lemma_catch_arms_fresh(k, arms, err, vis);
        lemma_catch_arms_spent(k, arms, n, vis);
        let b = own(a.next, *body);
        lemma_owned_fresh(a.next, *body, vis);
        lemma_owned_spent(a.next, *body, vis);
        let r = own(n, e);
        assert forall|m: u64| is_outside(m, n as int, r.next as int) implies quiet(
            r.to,
            #[trigger] temp_name(m),
        ) by {
            assert(is_outside(m, n as int, a.next as int));
            assert(arms_quiet(a.to, temp_name(m)));
            assert(is_outside(m, a.next as int, b.next as int));
            assert(quiet(b.to, temp_name(m)));
        }
    }
}

proof fn lemma_lambda_spent(n: u64, e: Node, vis: Seq<Seq<char>>)
    requires
        e is Fn,
        is_bare(e, vis),
        n + numbers(e) <= u64::MAX,
    ensures
        is_done(own(n, e), n as int),
    decreases e, 0nat,
{
    if let Node::Fn { params, captures, body, .. } = e {
        lemma_body_spent(n, params, *body, vis);
        let r = own(n, e);
        assert forall|m: u64| is_outside(m, n as int, r.next as int) implies quiet(
            r.to,
            #[trigger] temp_name(m),
        ) by {
            assert(is_temp(temp_name(m)));
            lemma_not_captured(captures, temp_name(m));
        }
    }
}

proof fn lemma_not_captured(captures: Seq<Bind>, x: Seq<char>)
    requires
        reads_no_temp(captures),
        is_temp(x),
    ensures
        captured(captures, x) == 0,
    decreases captures.len(),
{
    if captures.len() > 0 {
        let front = captures.drop_last();
        assert forall|i: int| 0 <= i < front.len() implies !is_temp(
            (#[trigger] front[i]).name,
        ) by {
            assert(front[i] == captures[i]);
        }
        lemma_not_captured(front, x);
        assert(!is_temp(captures[captures.len() - 1].name));
    }
}

proof fn lemma_body_spent(n: u64, params: Seq<Bind>, body: Node, vis: Seq<Seq<char>>)
    requires
        unmanaged(body),
        params_apart(params, vis),
        apart(body, param_vis(vis, params)),
        n + numbers(body) + params.len() * tails(body) <= u64::MAX,
    ensures
        temps_spent(own_body(n, params, body).to),
    decreases body, operands_of(body).len() + 4,
{
    let inner = param_vis(vis, params);
    let o = own(n, body);
    lemma_owned_fresh(n, body, inner);
    lemma_owned_spent(n, body, inner);
    lemma_params(params, vis);
    assert forall|i: int| 0 <= i < params.len() implies absent(
        o.to,
        (#[trigger] params[i]).name,
    ) && !is_temp(params[i].name) by {
        lemma_params_unnumbered(params, vis, i);
        visible_names_are_not_bound(body, inner, params[i].name);
        lemma_owned_absent(n, body, params[i].name);
    }
    lemma_params_spent(o.next, params, o.to, n as int);
}

/// While numbers for temporaries do not run out, every temporary in the owned form
/// of a function is released once on every path through its scope, or read once
/// there, without a retain, and not released.
pub proof fn temporaries_are_spent(n: u64, f: FnNode)
    requires
        is_apart_fn(f),
        n + numbers_in(f) <= u64::MAX,
    ensures
        temps_spent(own_body(n, f.params, f.body).to),
{
    lemma_body_spent(n, f.params, f.body, Seq::empty());
}


} // verus!
