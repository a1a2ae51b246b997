//! What is left of a binding once last uses are moves: on every way through its
//! scope it is released once or moved once, and never both, whatever happens to
//! the other bindings.

use vstd::prelude::*;

use crate::ir::{ArmNode, Bind, Node};
use crate::rc::absent::{absent, absent_all, arm_absent, arms_absent, lemma_owned_absent};
use crate::rc::elide::{
    elided, elided_all, elided_arm, elided_arms, elided_body, move_retain, move_retain_all,
    optimize, optimize_arm, optimize_arms, optimize_params, strip, strip_arm, strip_arm_jump,
    strip_arm_jumps, strip_arms, strip_jumps, strip_value_jumps,
};
use crate::rc::insert::{hands_on, own};
use crate::rc::laws::{
    arm_jump_passes, arm_jumps_pass, arm_passes, arms_pass, bindings_are_released_once, binds,
    clear, is_temp, jumps_pass, passes, value_jumps_pass,
};
use crate::rc::moves::{
    arm_tally, catch_tally, is_arm_way, is_catch_way, is_way, lemma_optimize_arms_len,
    lemma_optimize_hands_on, lemma_strip_hands_on, lemma_strip_retains, lemma_strip_ways,
    moves_keep_the_balance, reads, retains, retains_all, retains_arm, retains_arms, settles, tally,
    ways_pass,
};
use crate::types::{heap, Ty};

verus! {

proof fn lemma_strip_others(e: Node, y: Seq<char>, x: Seq<char>, k: int)
    requires
        x != y,
    ensures
        passes(e, x, k) ==> passes(strip(e, y), x, k),
        jumps_pass(e, x, k) ==> jumps_pass(strip(e, y), x, k),
        jumps_pass(e, x, k) ==> jumps_pass(strip_jumps(e, y), x, k),
    decreases e,
{
    match e {
        Node::Let { name, value, next, .. } => {
            lemma_strip_hands_on(*next, y, name);
            lemma_strip_others(*next, y, x, k);
            lemma_strip_other_values(*value, y, x, k);
        },
        Node::Release { name, next, .. } => lemma_strip_others(
            *next,
            y,
            x,
            if name == x {
                k - 1
            } else {
                k
            },
        ),
        Node::If { then, els, .. } => {
            lemma_strip_others(*then, y, x, k);
            lemma_strip_others(*els, y, x, k);
        },
        Node::Match { arms, .. } => lemma_strip_other_arms(arms, y, x, k),
        Node::Try { arms, .. } => lemma_strip_other_arms(arms, y, x, k),
        _ => {},
    }
}

proof fn lemma_strip_other_values(value: Node, y: Seq<char>, x: Seq<char>, k: int)
    requires
        x != y,
    ensures
        value_jumps_pass(value, x, k) ==> value_jumps_pass(strip_value_jumps(value, y), x, k),
    decreases value,
{
    if let Node::Try { arms, .. } = value {
        lemma_strip_other_arms(arms, y, x, k);
    }
}

proof fn lemma_strip_other_arm(arm: ArmNode, y: Seq<char>, x: Seq<char>, k: int)
    requires
        x != y,
    ensures
        arm_passes(arm, x, k) ==> arm_passes(strip_arm(arm, y), x, k),
        arm_jump_passes(arm, x, k) ==> arm_jump_passes(strip_arm(arm, y), x, k),
        arm_jump_passes(arm, x, k) ==> arm_jump_passes(strip_arm_jump(arm, y), x, k),
    decreases arm,
{
    lemma_strip_others(*arm.body, y, x, k);
}

proof fn lemma_strip_other_arms(s: Seq<ArmNode>, y: Seq<char>, x: Seq<char>, k: int)
    requires
        x != y,
    ensures
        arms_pass(s, x, k) ==> arms_pass(strip_arms(s, y), x, k),
        arm_jumps_pass(s, x, k) ==> arm_jumps_pass(strip_arms(s, y), x, k),
        arm_jumps_pass(s, x, k) ==> arm_jumps_pass(strip_arm_jumps(s, y), x, k),
    decreases s,
{
    if s.len() > 0 {
        lemma_strip_other_arms(s.drop_last(), y, x, k);
        lemma_strip_other_arm(s.last(), y, x, k);
        let t = strip_arms(s.drop_last(), y);
        assert(t.push(strip_arm(s.last(), y)).drop_last() =~= t);
        let u = strip_arm_jumps(s.drop_last(), y);
        assert(u.push(strip_arm_jump(s.last(), y)).drop_last() =~= u);
    }
}

proof fn lemma_moved_other(e: Node, y: Seq<char>, x: Seq<char>)
    requires
        x != y,
    ensures
        move_retain(e, y) matches Some(m) ==> {
            &&& retains(m, x) == retains(e, x)
            &&& reads(m, x) == reads(e, x)
            &&& !(e is Try) && !(m is Try)
        },
    decreases e,
{
    match e {
        Node::Retain { value } => lemma_moved_other(*value, y, x),
        Node::Let { value, next, .. } => {
            lemma_moved_other(*value, y, x);
            lemma_moved_other(*next, y, x);
        },
        Node::Release { next, .. } => lemma_moved_other(*next, y, x),
        Node::Call { callee, args, .. } => {
            lemma_moved_other(*callee, y, x);
            lemma_moved_other_all(args, y, x);
        },
        Node::Platform { args, .. } => lemma_moved_other_all(args, y, x),
        Node::Intrinsic { args, .. } => lemma_moved_other_all(args, y, x),
        Node::TailSelfCall { args, .. } => lemma_moved_other_all(args, y, x),
        Node::Array { elems, .. } => lemma_moved_other_all(elems, y, x),
        Node::EnumValue { payload, .. } => lemma_moved_other_all(payload, y, x),
        Node::RecordValue { fields, .. } => lemma_moved_other_all(fields, y, x),
        Node::FieldAccess { target, .. } => lemma_moved_other(*target, y, x),
        Node::Binary { left, right, .. } => {
            lemma_moved_other(*left, y, x);
            lemma_moved_other(*right, y, x);
        },
        Node::Concat { left, right } => {
            lemma_moved_other(*left, y, x);
            lemma_moved_other(*right, y, x);
        },
        Node::Throw { value } => lemma_moved_other(*value, y, x),
        Node::Question { value, .. } => lemma_moved_other(*value, y, x),
        Node::CharFromCode(value) => lemma_moved_other(*value, y, x),
        Node::StringFromChar(value) => lemma_moved_other(*value, y, x),
        Node::Panic { message } => lemma_moved_other(*message, y, x),
        _ => {},
    }
}

proof fn lemma_moved_other_all(s: Seq<Node>, y: Seq<char>, x: Seq<char>)
    requires
        x != y,
    ensures
        move_retain_all(s, y) matches Some(t) ==> retains_all(t, x) == retains_all(s, x),
    decreases s,
{
    if s.len() > 0 {
        lemma_moved_other_all(s.drop_last(), y, x);
        lemma_moved_other(s.last(), y, x);
        match move_retain_all(s.drop_last(), y) {
            Some(t) => {
                assert(t.push(s.last()).drop_last() =~= t);
            },
            None => {
                if let Some(m) = move_retain(s.last(), y) {
                    assert(s.drop_last().push(m).drop_last() =~= s.drop_last());
                }
            },
        }
    }
}

/// Moving another binding leaves the releases and retains of `x`.
proof fn lemma_optimize_others(e: Node, y: Seq<char>, x: Seq<char>, k: int)
    requires
        x != y,
    ensures
        passes(e, x, k) ==> passes(optimize(e, y), x, k),
        jumps_pass(e, x, k) ==> jumps_pass(optimize(e, y), x, k),
        retains(optimize(e, y), x) == retains(e, x),
    decreases e,
{
    match e {
        Node::Let { name, value, next, .. } => {
            lemma_optimize_hands_on(*next, y, name);
            lemma_strip_hands_on(*next, y, name);
            lemma_optimize_others(*next, y, x, k);
            lemma_strip_others(*next, y, x, k);
            lemma_strip_retains(*next, y, x);
            lemma_moved_other(*value, y, x);
            if let Some(m) = move_retain(*value, y) {
                assert(value_jumps_pass(m, x, k));
            }
        },
        Node::Release { name, next, .. } => lemma_optimize_others(
            *next,
            y,
            x,
            if name == x {
                k - 1
            } else {
                k
            },
        ),
        Node::If { then, els, .. } => {
            lemma_optimize_others(*then, y, x, k);
            lemma_optimize_others(*els, y, x, k);
        },
        Node::Match { arms, .. } => lemma_optimize_other_arms(arms, y, x, k),
        _ => {},
    }
}

proof fn lemma_optimize_other_arm(arm: ArmNode, y: Seq<char>, x: Seq<char>, k: int)
    requires
        x != y,
    ensures
        arm_passes(arm, x, k) ==> arm_passes(optimize_arm(arm, y), x, k),
        arm_jump_passes(arm, x, k) ==> arm_jump_passes(optimize_arm(arm, y), x, k),
        retains_arm(optimize_arm(arm, y), x) == retains_arm(arm, x),
    decreases arm,
{
    lemma_optimize_others(*arm.body, y, x, k);
}

proof fn lemma_optimize_other_arms(s: Seq<ArmNode>, y: Seq<char>, x: Seq<char>, k: int)
    requires
        x != y,
    ensures
        arms_pass(s, x, k) ==> arms_pass(optimize_arms(s, y), x, k),
        arm_jumps_pass(s, x, k) ==> arm_jumps_pass(optimize_arms(s, y), x, k),
        retains_arms(optimize_arms(s, y), x) == retains_arms(s, x),
    decreases s,
{
    if s.len() > 0 {
        lemma_optimize_other_arms(s.drop_last(), y, x, k);
        lemma_optimize_other_arm(s.last(), y, x, k);
        let t = optimize_arms(s.drop_last(), y);
        assert(t.push(optimize_arm(s.last(), y)).drop_last() =~= t);
    }
}

/// Moving another binding leaves every way, and what stands of `x` on it.
proof fn lemma_optimize_other_ways(e: Node, y: Seq<char>, x: Seq<char>, p: Seq<nat>, jumping: bool)
    requires
        x != y,
    ensures
        is_way(optimize(e, y), p, jumping) == is_way(e, p, jumping),
        is_way(e, p, jumping) ==> tally(optimize(e, y), x, p).retains == tally(e, x, p).retains,
    decreases e,
{
    match e {
        Node::Let { name, value, next, .. } => {
            lemma_optimize_hands_on(*next, y, name);
            lemma_strip_hands_on(*next, y, name);
            lemma_moved_other(*value, y, x);
            lemma_optimize_other_ways(*next, y, x, p, jumping);
            lemma_optimize_other_ways(*next, y, x, p.drop_first(), jumping);
            lemma_strip_ways(*next, y, x, p, jumping);
        },
        Node::Release { next, .. } => lemma_optimize_other_ways(*next, y, x, p, jumping),
        Node::If { then, els, .. } => {
            lemma_optimize_other_ways(*then, y, x, p.drop_first(), jumping);
            lemma_optimize_other_ways(*els, y, x, p.drop_first(), jumping);
        },
        Node::Match { arms, .. } => {
            lemma_optimize_arms_len(arms, y);
            if p.len() > 0 && p[0] < arms.len() {
                let i = p[0] as int;
                lemma_optimize_other_arm_ways(arms[i], y, x, p.drop_first(), jumping);
                assert(optimize_arms(arms, y)[i] == optimize_arm(arms[i], y));
            }
        },
        _ => {},
    }
}

proof fn lemma_optimize_other_arm_ways(arm: ArmNode, y: Seq<char>, x: Seq<char>, p: Seq<nat>, jumping: bool)
    requires
        x != y,
    ensures
        is_arm_way(optimize_arm(arm, y), p, jumping) == is_arm_way(arm, p, jumping),
        is_arm_way(arm, p, jumping) ==> arm_tally(optimize_arm(arm, y), x, p).retains == arm_tally(
            arm,
            x,
            p,
        ).retains,
    decreases arm,
{
    lemma_optimize_other_ways(*arm.body, y, x, p, jumping);
}

proof fn lemma_elided_hands_on(e: Node, bound: Seq<char>)
    ensures
        hands_on(elided(e), bound) == hands_on(e, bound),
    decreases e,
{
    if let Node::Release { next, .. } = e {
        lemma_elided_hands_on(*next, bound);
    }
}

/// Moves inside an expression that does not bind `x` leave its retains.
pub proof fn lemma_elided_retains(e: Node, x: Seq<char>)
    requires
        absent(e, x),
    ensures
        retains(elided(e), x) == retains(e, x),
        reads(elided(e), x) == reads(e, x),
    decreases e,
{
    match e {
        Node::Let { name, value_ty, value, next } => {
            lemma_elided_retains(*value, x);
            lemma_elided_retains(*next, x);
            lemma_optimize_others(elided(*next), name, x, 0);
        },
        Node::Release { next, .. } => lemma_elided_retains(*next, x),
        Node::Retain { value } => lemma_elided_retains(*value, x),
        Node::Throw { value } => lemma_elided_retains(*value, x),
        Node::Question { value, .. } => lemma_elided_retains(*value, x),
        Node::Call { callee, args, .. } => {
            lemma_elided_retains(*callee, x);
            lemma_elided_retains_all(args, x);
        },
        Node::Platform { args, .. } => lemma_elided_retains_all(args, x),
        Node::Intrinsic { args, .. } => lemma_elided_retains_all(args, x),
        Node::TailSelfCall { args, .. } => lemma_elided_retains_all(args, x),
        Node::Array { elems, .. } => lemma_elided_retains_all(elems, x),
        Node::EnumValue { payload, .. } => lemma_elided_retains_all(payload, x),
        Node::RecordValue { fields, .. } => lemma_elided_retains_all(fields, x),
        Node::FieldAccess { target, .. } => lemma_elided_retains(*target, x),
        Node::CharFromCode(value) => lemma_elided_retains(*value, x),
        Node::StringFromChar(value) => lemma_elided_retains(*value, x),
        Node::Binary { left, right, .. } => {
            lemma_elided_retains(*left, x);
            lemma_elided_retains(*right, x);
        },
        Node::Concat { left, right } => {
            lemma_elided_retains(*left, x);
            lemma_elided_retains(*right, x);
        },
        Node::If { cond, then, els, .. } => {
            lemma_elided_retains(*cond, x);
            lemma_elided_retains(*then, x);
            lemma_elided_retains(*els, x);
        },
        Node::Match { scrutinee, arms, .. } => {
            lemma_elided_retains(*scrutinee, x);
            lemma_elided_retains_arms(arms, None, x);
        },
        Node::Try { body, arms, err_name, .. } => {
            lemma_elided_retains(*body, x);
            lemma_elided_retains_arms(arms, err_name, x);
        },
        Node::Panic { message } => lemma_elided_retains(*message, x),
        _ => {},
    }
}

proof fn lemma_elided_retains_all(s: Seq<Node>, x: Seq<char>)
    requires
        absent_all(s, x),
    ensures
        retains_all(elided_all(s), x) == retains_all(s, x),
    decreases s,
{
    if s.len() > 0 {
        lemma_elided_retains_all(s.drop_last(), x);
        lemma_elided_retains(s.last(), x);
        let t = elided_all(s.drop_last());
        assert(t.push(elided(s.last())).drop_last() =~= t);
    }
}

proof fn lemma_elided_retains_arm(arm: ArmNode, err: Option<Seq<char>>, x: Seq<char>)
    requires
        arm_absent(arm, x),
        err != Some(x),
    ensures
        retains_arm(elided_arm(arm, err), x) == retains_arm(arm, x),
    decreases arm,
{
    if let Some(guard) = arm.guard {
        lemma_elided_retains(*guard, x);
    }
    lemma_elided_retains(*arm.body, x);
    if let Some(y) = err {
        lemma_optimize_others(elided(*arm.body), y, x, 0);
    }
}

proof fn lemma_elided_retains_arms(s: Seq<ArmNode>, err: Option<Seq<char>>, x: Seq<char>)
    requires
        arms_absent(s, x),
        err != Some(x),
    ensures
        retains_arms(elided_arms(s, err), x) == retains_arms(s, x),
    decreases s,
{
    if s.len() > 0 {
        lemma_elided_retains_arms(s.drop_last(), err, x);
        lemma_elided_retains_arm(s.last(), err, x);
        let t = elided_arms(s.drop_last(), err);
        assert(t.push(elided_arm(s.last(), err)).drop_last() =~= t);
    }
}

/// Moves inside an expression that does not bind `x` leave its releases.
pub proof fn lemma_elided_passes(e: Node, x: Seq<char>, k: int)
    requires
        absent(e, x),
    ensures
        passes(e, x, k) ==> passes(elided(e), x, k),
        jumps_pass(e, x, k) ==> jumps_pass(elided(e), x, k),
    decreases e,
{
    match e {
        Node::Let { name, value_ty, value, next } => {
            lemma_elided_hands_on(*next, name);
            lemma_optimize_hands_on(elided(*next), name, name);
            lemma_elided_passes(*next, x, k);
            lemma_optimize_others(elided(*next), name, x, k);
            assert(absent(*value, x));
            if let Node::Try { arms, err_name, .. } = *value {
                lemma_elided_passes_arms(arms, err_name, x, k);
            }
            assert(value_jumps_pass(*value, x, k) ==> value_jumps_pass(elided(*value), x, k));
        },
        Node::Release { name, next, .. } => lemma_elided_passes(
            *next,
            x,
            if name == x {
                k - 1
            } else {
                k
            },
        ),
        Node::If { then, els, .. } => {
            lemma_elided_passes(*then, x, k);
            lemma_elided_passes(*els, x, k);
        },
        Node::Match { arms, .. } => lemma_elided_passes_arms(arms, None, x, k),
        Node::Try { arms, err_name, .. } => lemma_elided_passes_arms(arms, err_name, x, k),
        _ => {},
    }
}

proof fn lemma_elided_passes_arm(arm: ArmNode, err: Option<Seq<char>>, x: Seq<char>, k: int)
    requires
        arm_absent(arm, x),
        err != Some(x),
    ensures
        arm_passes(arm, x, k) ==> arm_passes(elided_arm(arm, err), x, k),
        arm_jump_passes(arm, x, k) ==> arm_jump_passes(elided_arm(arm, err), x, k),
    decreases arm,
{
    lemma_elided_passes(*arm.body, x, k);
    if let Some(y) = err {
        lemma_optimize_others(elided(*arm.body), y, x, k);
    }
}

proof fn lemma_elided_passes_arms(s: Seq<ArmNode>, err: Option<Seq<char>>, x: Seq<char>, k: int)
    requires
        arms_absent(s, x),
        err != Some(x),
    ensures
        arms_pass(s, x, k) ==> arms_pass(elided_arms(s, err), x, k),
        arm_jumps_pass(s, x, k) ==> arm_jumps_pass(elided_arms(s, err), x, k),
    decreases s,
{
    if s.len() > 0 {
        lemma_elided_passes_arms(s.drop_last(), err, x, k);
        lemma_elided_passes_arm(s.last(), err, x, k);
        let t = elided_arms(s.drop_last(), err);
        assert(t.push(elided_arm(s.last(), err)).drop_last() =~= t);
    }
}

proof fn lemma_elided_arms_len(s: Seq<ArmNode>, err: Option<Seq<char>>)
    ensures
        elided_arms(s, err).len() == s.len(),
        forall|i: int|
            0 <= i < s.len() ==> #[trigger] elided_arms(s, err)[i] == elided_arm(s[i], err),
    decreases s.len(),
{
    if s.len() > 0 {
        lemma_elided_arms_len(s.drop_last(), err);
    }
}

/// Moves inside an expression that does not bind `x` leave every way, and what
/// stands of `x` on it.
#[verifier::rlimit(60)]
pub proof fn lemma_elided_ways(e: Node, x: Seq<char>, p: Seq<nat>, jumping: bool)
    requires
        absent(e, x),
    ensures
        is_way(elided(e), p, jumping) == is_way(e, p, jumping),
        is_way(e, p, jumping) ==> tally(elided(e), x, p).retains == tally(e, x, p).retains,
    decreases e,
{
    lemma_elided_retains(e, x);
    match e {
        Node::Let { name, value_ty, value, next } => {
            let rest = p.drop_first();
            lemma_elided_hands_on(*next, name);
            lemma_optimize_hands_on(elided(*next), name, name);
            lemma_elided_retains(*value, x);
            lemma_elided_ways(*next, x, p, jumping);
            lemma_elided_ways(*next, x, rest, jumping);
            lemma_optimize_other_ways(elided(*next), name, x, p, jumping);
            lemma_optimize_other_ways(elided(*next), name, x, rest, jumping);
            assert(absent(*value, x));
            if let Node::Try { body, arms, err_name, .. } = *value {
                lemma_elided_retains(*body, x);
                lemma_elided_catch_ways(arms, err_name, x, rest);
                assert(elided(*value) is Try);
            } else {
                assert(!(elided(*value) is Try));
            }
        },
        Node::Release { next, .. } => lemma_elided_ways(*next, x, p, jumping),
        Node::If { cond, then, els, .. } => {
            lemma_elided_retains(*cond, x);
            lemma_elided_ways(*then, x, p.drop_first(), jumping);
            lemma_elided_ways(*els, x, p.drop_first(), jumping);
        },
        Node::Match { scrutinee, arms, .. } => {
            lemma_elided_retains(*scrutinee, x);
            lemma_elided_arms_len(arms, None);
            if p.len() > 0 && p[0] < arms.len() {
                let i = p[0] as int;
                lemma_arms_absent(arms, x, i);
                lemma_elided_arm_ways(arms[i], None, x, p.drop_first(), jumping);
                assert(elided_arms(arms, None)[i] == elided_arm(arms[i], None));
            }
        },
        Node::Try { body, arms, err_name, .. } => {
            lemma_elided_retains(*body, x);
            lemma_elided_catch_ways(arms, err_name, x, p.drop_first());
        },
        _ => {},
    }
}

proof fn lemma_arms_absent(s: Seq<ArmNode>, x: Seq<char>, i: int)
    requires
        arms_absent(s, x),
        0 <= i < s.len(),
    ensures
        arm_absent(s[i], x),
    decreases s.len(),
{
    if i < s.len() - 1 {
        lemma_arms_absent(s.drop_last(), x, i);
    }
}

proof fn lemma_elided_catch_ways(arms: Seq<ArmNode>, err: Option<Seq<char>>, x: Seq<char>, p: Seq<nat>)
    requires
        arms_absent(arms, x),
        err != Some(x),
    ensures
        is_catch_way(elided_arms(arms, err), p) == is_catch_way(arms, p),
        is_catch_way(arms, p) ==> catch_tally(elided_arms(arms, err), x, p).retains == catch_tally(
            arms,
            x,
            p,
        ).retains,
    decreases arms,
{
    lemma_elided_arms_len(arms, err);
    if p.len() > 0 && p[0] < arms.len() {
        let i = p[0] as int;
        lemma_arms_absent(arms, x, i);
        lemma_elided_arm_ways(arms[i], err, x, p.drop_first(), true);
        assert(elided_arms(arms, err)[i] == elided_arm(arms[i], err));
    }
}

proof fn lemma_elided_arm_ways(arm: ArmNode, err: Option<Seq<char>>, x: Seq<char>, p: Seq<nat>, jumping: bool)
    requires
        arm_absent(arm, x),
        err != Some(x),
    ensures
        is_arm_way(elided_arm(arm, err), p, jumping) == is_arm_way(arm, p, jumping),
        is_arm_way(arm, p, jumping) ==> arm_tally(elided_arm(arm, err), x, p).retains == arm_tally(
            arm,
            x,
            p,
        ).retains,
    decreases arm,
{
    lemma_elided_ways(*arm.body, x, p, jumping);
    if let Some(y) = err {
        lemma_optimize_other_ways(elided(*arm.body), y, x, p, jumping);
    }
}

/// A heap value that a `let` binds is released once or moved once, and never
/// both, on every way through its scope, jumps out of catch arms included:
/// `scope` is the scope with every release in its place, and what is left of it
/// once last uses are moves has the same ways.
pub proof fn bindings_are_settled(name: Seq<char>, value_ty: Ty, value: Node, scope: Node, p: Seq<nat>)
    requires
        heap(value_ty),
        passes(scope, name, 1),
        absent(scope, name),
        is_way(scope, p, false),
    ensures
        ({
            let e = Node::Let { name, value_ty, value: Box::new(value), next: Box::new(scope) };
            &&& elided(e) matches Node::Let { name: bound, next, .. } && bound == name && is_way(
                *next,
                p,
                false,
            ) && settles(tally(scope, name, p), tally(*next, name, p))
        }),
{
    let inner = elided(scope);
    lemma_elided_passes(scope, name, 1);
    lemma_elided_ways(scope, name, p, false);
    moves_keep_the_balance(inner, name, p);
    ways_pass(scope, name, 1, p);
    ways_pass(inner, name, 1, p);
}

/// A heap value that a `let` binds is released once or moved once, and never
/// both, on every way through its scope, provided that nothing in the scope has
/// its name or releases it.
pub proof fn owned_bindings_are_settled(n: u64, name: Seq<char>, value_ty: Ty, value: Node, next: Node, p: Seq<nat>)
    requires
        heap(value_ty),
        clear(next, name),
        !binds(next, name),
        absent(next, name),
        !is_temp(name),
    ensures
        ({
            let e = Node::Let { name, value_ty, value: Box::new(value), next: Box::new(next) };
            own(n, e).to matches Node::Let { next: scope, .. } && elided(own(n, e).to) matches Node::Let {
                next: left,
                ..
            } && (is_way(*scope, p, false) ==> is_way(*left, p, false) && settles(
                tally(*scope, name, p),
                tally(*left, name, p),
            ))
        }),
{
    let e = Node::Let { name, value_ty, value: Box::new(value), next: Box::new(next) };
    bindings_are_released_once(n, name, value_ty, value, next);
    let v = own(n, value);
    let b = own(v.next, next);
    lemma_owned_absent(v.next, next, name);
    crate::rc::absent::lemma_tails_absent(b.next, b.to, name, value_ty, name);
    if let Node::Let { value: owned, next: scope, .. } = own(n, e).to {
        if is_way(*scope, p, false) {
            bindings_are_settled(name, value_ty, *owned, *scope, p);
        }
    }
}

/// How the moves of parameters treat `x`, which is the name of the one at `i`, or
/// of none where `i` is beyond them.
proof fn lemma_optimized_params(params: Seq<Bind>, body: Node, x: Seq<char>, i: int, p: Seq<nat>)
    requires
        forall|j: int| 0 <= j < params.len() && j != i ==> (#[trigger] params[j]).name != x,
        0 <= i < params.len() ==> params[i].name == x && heap(params[i].ty),
        passes(body, x, 1),
        is_way(body, p, false),
    ensures
        is_way(optimize_params(params, body), p, false),
        0 <= i < params.len() ==> settles(
            tally(body, x, p),
            tally(optimize_params(params, body), x, p),
        ),
        !(0 <= i < params.len()) ==> passes(optimize_params(params, body), x, 1) && tally(
            optimize_params(params, body),
            x,
            p,
        ).retains == tally(body, x, p).retains,
    decreases params.len(),
{
    ways_pass(body, x, 1, p);
    if params.len() > 0 {
        let front = params.drop_last();
        assert forall|j: int| 0 <= j < front.len() && j != i implies (#[trigger] front[j]).name
            != x by {
            assert(front[j] == params[j]);
        }
        lemma_optimized_params(front, body, x, i, p);
        let init = optimize_params(front, body);
        let last = params.last();
        if heap(last.ty) {
            if i == params.len() - 1 {
                moves_keep_the_balance(init, x, p);
                ways_pass(init, x, 1, p);
            } else {
                let y = last.name;
                assert(params[params.len() - 1].name != x);
                lemma_optimize_others(init, y, x, 1);
                lemma_optimize_other_ways(init, y, x, p, false);
                lemma_optimize_other_releases(init, y, x, p, false);
            }
        }
    }
}

proof fn lemma_strip_other_releases(e: Node, y: Seq<char>, x: Seq<char>, p: Seq<nat>, jumping: bool)
    requires
        x != y,
        is_way(e, p, jumping),
    ensures
        tally(strip(e, y), x, p).releases == tally(e, x, p).releases,
        tally(strip_jumps(e, y), x, p).releases == tally(e, x, p).releases,
    decreases e,
{
    match e {
        Node::Let { name, value, next, .. } => {
            lemma_strip_hands_on(*next, y, name);
            if let Node::Try { arms, .. } = *value {
                if hands_on(*next, name) {
                    if p[0] == 0 {
                        lemma_strip_other_releases(*next, y, x, p.drop_first(), jumping);
                    } else {
                        lemma_strip_catch_releases(arms, y, x, p.drop_first());
                    }
                } else {
                    lemma_strip_other_releases(*next, y, x, p, jumping);
                }
            } else {
                lemma_strip_other_releases(*next, y, x, p, jumping);
            }
        },
        Node::Release { next, .. } => lemma_strip_other_releases(*next, y, x, p, jumping),
        Node::If { then, els, .. } => {
            if p[0] == 0 {
                lemma_strip_other_releases(*then, y, x, p.drop_first(), jumping);
            } else {
                lemma_strip_other_releases(*els, y, x, p.drop_first(), jumping);
            }
        },
        Node::Match { arms, .. } => {
            let i = p[0] as int;
            crate::rc::moves::lemma_strip_arms_len(arms, y);
            lemma_strip_arm_releases(arms[i], y, x, p.drop_first(), jumping);
            assert(strip_arms(arms, y)[i] == strip_arm(arms[i], y));
            assert(strip_arm_jumps(arms, y)[i] == strip_arm_jump(arms[i], y));
        },
        Node::Try { arms, .. } => {
            if p[0] != 0 {
                lemma_strip_catch_releases(arms, y, x, p.drop_first());
            }
        },
        _ => {},
    }
}

proof fn lemma_strip_catch_releases(arms: Seq<ArmNode>, y: Seq<char>, x: Seq<char>, p: Seq<nat>)
    requires
        x != y,
        is_catch_way(arms, p),
    ensures
        catch_tally(strip_arm_jumps(arms, y), x, p).releases == catch_tally(arms, x, p).releases,
    decreases arms,
{
    let i = p[0] as int;
    crate::rc::moves::lemma_strip_arms_len(arms, y);
    lemma_strip_arm_releases(arms[i], y, x, p.drop_first(), true);
    assert(strip_arm_jumps(arms, y)[i] == strip_arm_jump(arms[i], y));
}

proof fn lemma_strip_arm_releases(arm: ArmNode, y: Seq<char>, x: Seq<char>, p: Seq<nat>, jumping: bool)
    requires
        x != y,
        is_arm_way(arm, p, jumping),
    ensures
        arm_tally(strip_arm(arm, y), x, p).releases == arm_tally(arm, x, p).releases,
        arm_tally(strip_arm_jump(arm, y), x, p).releases == arm_tally(arm, x, p).releases,
    decreases arm,
{
    lemma_strip_other_releases(*arm.body, y, x, p, jumping);
}

/// Moving another binding leaves the releases of `x` on every way.
proof fn lemma_optimize_other_releases(e: Node, y: Seq<char>, x: Seq<char>, p: Seq<nat>, jumping: bool)
    requires
        x != y,
        is_way(e, p, jumping),
    ensures
        tally(optimize(e, y), x, p).releases == tally(e, x, p).releases,
    decreases e,
{
    match e {
        Node::Let { name, value, next, .. } => {
            lemma_optimize_hands_on(*next, y, name);
            lemma_strip_hands_on(*next, y, name);
            lemma_moved_other(*value, y, x);
            let wrapped = *value is Try && hands_on(*next, name);
            if !wrapped {
                lemma_optimize_other_releases(*next, y, x, p, jumping);
                lemma_strip_other_releases(*next, y, x, p, jumping);
            } else if p[0] == 0 {
                lemma_optimize_other_releases(*next, y, x, p.drop_first(), jumping);
            }
        },
        Node::Release { next, .. } => lemma_optimize_other_releases(*next, y, x, p, jumping),
        Node::If { then, els, .. } => {
            if p[0] == 0 {
                lemma_optimize_other_releases(*then, y, x, p.drop_first(), jumping);
            } else {
                lemma_optimize_other_releases(*els, y, x, p.drop_first(), jumping);
            }
        },
        Node::Match { arms, .. } => {
            let i = p[0] as int;
            lemma_optimize_arms_len(arms, y);
            lemma_optimize_other_arm_releases(arms[i], y, x, p.drop_first(), jumping);
            assert(optimize_arms(arms, y)[i] == optimize_arm(arms[i], y));
        },
        _ => {},
    }
}

proof fn lemma_optimize_other_arm_releases(arm: ArmNode, y: Seq<char>, x: Seq<char>, p: Seq<nat>, jumping: bool)
    requires
        x != y,
        is_arm_way(arm, p, jumping),
    ensures
        arm_tally(optimize_arm(arm, y), x, p).releases == arm_tally(arm, x, p).releases,
    decreases arm,
{
    lemma_optimize_other_releases(*arm.body, y, x, p, jumping);
}

/// A heap parameter is released once or moved once, and never both, on every way
/// through a body whose every path releases it once and that does not bind its
/// name.
pub proof fn parameters_are_settled(params: Seq<Bind>, body: Node, i: int, p: Seq<nat>)
    requires
        0 <= i < params.len(),
        heap(params[i].ty),
        forall|j: int, k: int|
            0 <= j < k < params.len() ==> (#[trigger] params[j]).name != (#[trigger] params[k]).name,
        passes(body, params[i].name, 1),
        absent(body, params[i].name),
        is_way(body, p, false),
    ensures
        is_way(elided_body(params, body), p, false),
        settles(
            tally(body, params[i].name, p),
            tally(elided_body(params, body), params[i].name, p),
        ),
{
    let x = params[i].name;
    let inner = elided(body);
    lemma_elided_passes(body, x, 1);
    lemma_elided_ways(body, x, p, false);
    lemma_optimized_params(params, inner, x, i, p);
    ways_pass(body, x, 1, p);
    ways_pass(inner, x, 1, p);
}

/// Turning the last uses of one binding into moves leaves every way through an
/// expression, and on each of them the retains and releases of every other
/// binding.
pub proof fn other_bindings_are_left_alone(e: Node, y: Seq<char>, x: Seq<char>, p: Seq<nat>)
    requires
        x != y,
        is_way(e, p, false),
    ensures
        is_way(optimize(e, y), p, false),
        tally(optimize(e, y), x, p) == tally(e, x, p),
{
    lemma_optimize_other_ways(e, y, x, p, false);
    lemma_optimize_other_releases(e, y, x, p, false);
}

} // verus!
