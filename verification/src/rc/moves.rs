//! Turning last uses into moves keeps the balance: on every path, as many
//! retains of a binding disappear as releases, so that the binding is either
//! released or moved, and never both.

use vstd::prelude::*;

use crate::ir::{ArmNode, Node};
use crate::rc::elide::{
    move_retain, move_retain_all, optimize, optimize_arm, optimize_arms, strip, strip_arm,
    strip_arm_jump, strip_arm_jumps, strip_arms, strip_jumps, strip_value_jumps,
};
use crate::rc::insert::hands_on;
use crate::rc::laws::{
    arm_jump_passes, arm_jumps_pass, arm_passes, arms_pass, jumps_pass, passes, value_jumps_pass,
};

verus! {

/// Whether an expression is a read of `x`, retained or not.
pub open spec fn reads(e: Node, x: Seq<char>) -> bool
    decreases e,
{
    match e {
        Node::Var { name, .. } => name == x,
        Node::Retain { value } => reads(*value, x),
        _ => false,
    }
}

/// How many retains of `x` stand in `e`. A lambda retains what is its own.
pub open spec fn retains(e: Node, x: Seq<char>) -> nat
    decreases e,
{
    match e {
        Node::Retain { value } => retains(*value, x) + if reads(*value, x) {
            1nat
        } else {
            0nat
        },
        Node::Let { value, next, .. } => retains(*value, x) + retains(*next, x),
        Node::Release { next, .. } => retains(*next, x),
        Node::Throw { value } => retains(*value, x),
        Node::Question { value, .. } => retains(*value, x),
        Node::Call { callee, args, .. } => retains(*callee, x) + retains_all(args, x),
        Node::Platform { args, .. } => retains_all(args, x),
        Node::Intrinsic { args, .. } => retains_all(args, x),
        Node::TailSelfCall { args, .. } => retains_all(args, x),
        Node::Array { elems, .. } => retains_all(elems, x),
        Node::EnumValue { payload, .. } => retains_all(payload, x),
        Node::RecordValue { fields, .. } => retains_all(fields, x),
        Node::FieldAccess { target, .. } => retains(*target, x),
        Node::CharFromCode(value) => retains(*value, x),
        Node::StringFromChar(value) => retains(*value, x),
        Node::Binary { left, right, .. } => retains(*left, x) + retains(*right, x),
        Node::Concat { left, right } => retains(*left, x) + retains(*right, x),
        Node::If { cond, then, els, .. } => retains(*cond, x) + retains(*then, x) + retains(
            *els,
            x,
        ),
        Node::Match { scrutinee, arms, .. } => retains(*scrutinee, x) + retains_arms(arms, x),
        Node::Try { body, arms, .. } => retains(*body, x) + retains_arms(arms, x),
        Node::Panic { message } => retains(*message, x),
        _ => 0,
    }
}

/// How many retains of `x` stand in a list of expressions.
pub open spec fn retains_all(s: Seq<Node>, x: Seq<char>) -> nat
    decreases s,
{
    if s.len() == 0 {
        0
    } else {
        retains_all(s.drop_last(), x) + retains(s.last(), x)
    }
}

/// How many retains of `x` stand in an arm.
pub open spec fn retains_arm(arm: ArmNode, x: Seq<char>) -> nat
    decreases arm,
{
    match arm.guard {
        Some(guard) => retains(*guard, x) + retains(*arm.body, x),
        None => retains(*arm.body, x),
    }
}

/// How many retains of `x` stand in a list of arms.
pub open spec fn retains_arms(s: Seq<ArmNode>, x: Seq<char>) -> nat
    decreases s,
{
    if s.len() == 0 {
        0
    } else {
        retains_arms(s.drop_last(), x) + retains_arm(s.last(), x)
    }
}

/// Whether `p` is a way through `e`: which branch it takes at each `if` (the
/// first or the second) and at each `match`, and whether it goes on after a `try`
/// that ends the scope or jumps out of one of its catch arms. With `jumping`, it
/// must end with a jump.
pub open spec fn is_way(e: Node, p: Seq<nat>, jumping: bool) -> bool
    decreases e,
{
    match e {
        Node::Let { name, value, next, .. } => match *value {
            Node::Try { arms, .. } => if hands_on(*next, name) {
                p.len() > 0 && (if p[0] == 0 {
                    is_way(*next, p.drop_first(), jumping)
                } else {
                    is_catch_way(arms, p.drop_first())
                })
            } else {
                is_way(*next, p, jumping)
            },
            _ => is_way(*next, p, jumping),
        },
        Node::Release { next, .. } => is_way(*next, p, jumping),
        Node::If { then, els, .. } => p.len() > 0 && (if p[0] == 0 {
            is_way(*then, p.drop_first(), jumping)
        } else {
            p[0] == 1 && is_way(*els, p.drop_first(), jumping)
        }),
        Node::Match { arms, .. } => p.len() > 0 && p[0] < arms.len() && is_arm_way(
            arms[p[0] as int],
            p.drop_first(),
            jumping,
        ),
        Node::Try { arms, .. } => p.len() > 0 && (if p[0] == 0 {
            !jumping && p.len() == 1
        } else {
            is_catch_way(arms, p.drop_first())
        }),
        Node::TailSelfCall { .. } => p.len() == 0,
        Node::Throw { .. } => p.len() == 0,
        _ => !jumping && p.len() == 0,
    }
}

/// Whether `p` is a way that jumps out of one of these catch arms.
pub open spec fn is_catch_way(arms: Seq<ArmNode>, p: Seq<nat>) -> bool
    decreases arms,
{
    p.len() > 0 && p[0] < arms.len() && is_arm_way(arms[p[0] as int], p.drop_first(), true)
}

/// [`is_way`] through the body of an arm.
pub open spec fn is_arm_way(arm: ArmNode, p: Seq<nat>, jumping: bool) -> bool
    decreases arm,
{
    is_way(*arm.body, p, jumping)
}

/// What stands on a way: retains and releases.
#[verifier::ext_equal]
pub struct Tally {
    pub retains: nat,
    pub releases: nat,
}

/// A tally with more retains.
pub open spec fn more(t: Tally, retains: nat) -> Tally {
    Tally { retains: t.retains + retains, releases: t.releases }
}

/// The retains and the releases of `x` on a way.
pub open spec fn tally(e: Node, x: Seq<char>, p: Seq<nat>) -> Tally
    decreases e,
{
    match e {
        Node::Let { name, value, next, .. } => match *value {
            Node::Try { body, arms, .. } => if hands_on(*next, name) {
                if p[0] == 0 {
                    more(tally(*next, x, p.drop_first()), retains(*value, x))
                } else {
                    more(catch_tally(arms, x, p.drop_first()), retains(*body, x))
                }
            } else {
                more(tally(*next, x, p), retains(*value, x))
            },
            _ => more(tally(*next, x, p), retains(*value, x)),
        },
        Node::Release { name, next, .. } => {
            let t = tally(*next, x, p);
            if name == x {
                Tally { retains: t.retains, releases: t.releases + 1 }
            } else {
                t
            }
        },
        Node::If { cond, then, els, .. } => more(
            if p[0] == 0 {
                tally(*then, x, p.drop_first())
            } else {
                tally(*els, x, p.drop_first())
            },
            retains(*cond, x),
        ),
        Node::Match { scrutinee, arms, .. } => more(
            if p[0] < arms.len() {
                arm_tally(arms[p[0] as int], x, p.drop_first())
            } else {
                Tally { retains: 0, releases: 0 }
            },
            retains(*scrutinee, x),
        ),
        Node::Try { body, arms, .. } => if p[0] == 0 {
            Tally { retains: retains(e, x), releases: 0 }
        } else {
            more(catch_tally(arms, x, p.drop_first()), retains(*body, x))
        },
        _ => Tally { retains: retains(e, x), releases: 0 },
    }
}

/// [`tally`] of a way that jumps out of one of these catch arms.
pub open spec fn catch_tally(arms: Seq<ArmNode>, x: Seq<char>, p: Seq<nat>) -> Tally
    decreases arms,
{
    if p[0] < arms.len() {
        arm_tally(arms[p[0] as int], x, p.drop_first())
    } else {
        Tally { retains: 0, releases: 0 }
    }
}

/// [`tally`] through the body of an arm.
pub open spec fn arm_tally(arm: ArmNode, x: Seq<char>, p: Seq<nat>) -> Tally
    decreases arm,
{
    tally(*arm.body, x, p)
}

pub proof fn lemma_moved(e: Node, x: Seq<char>)
    ensures
        move_retain(e, x) matches Some(m) ==> {
            &&& retains(m, x) + 1 == retains(e, x)
            &&& !(e is Try) && !(m is Try)
            &&& reads(m, x) == reads(e, x)
        },
    decreases e,
{
    match e {
        Node::Retain { value } => lemma_moved(*value, x),
        Node::Let { value, next, .. } => {
            lemma_moved(*value, x);
            lemma_moved(*next, x);
        },
        Node::Release { next, .. } => lemma_moved(*next, x),
        Node::Call { callee, args, .. } => {
            lemma_moved(*callee, x);
            lemma_moved_all(args, x);
        },
        Node::Platform { args, .. } => lemma_moved_all(args, x),
        Node::Intrinsic { args, .. } => lemma_moved_all(args, x),
        Node::TailSelfCall { args, .. } => lemma_moved_all(args, x),
        Node::Array { elems, .. } => lemma_moved_all(elems, x),
        Node::EnumValue { payload, .. } => lemma_moved_all(payload, x),
        Node::RecordValue { fields, .. } => lemma_moved_all(fields, x),
        Node::FieldAccess { target, .. } => lemma_moved(*target, x),
        Node::Binary { left, right, .. } => {
            lemma_moved(*left, x);
            lemma_moved(*right, x);
        },
        Node::Concat { left, right } => {
            lemma_moved(*left, x);
            lemma_moved(*right, x);
        },
        Node::Throw { value } => lemma_moved(*value, x),
        Node::Question { value, .. } => lemma_moved(*value, x),
        Node::CharFromCode(value) => lemma_moved(*value, x),
        Node::StringFromChar(value) => lemma_moved(*value, x),
        Node::Panic { message } => lemma_moved(*message, x),
        _ => {},
    }
}

proof fn lemma_moved_all(s: Seq<Node>, x: Seq<char>)
    ensures
        move_retain_all(s, x) matches Some(t) ==> retains_all(t, x) + 1 == retains_all(s, x),
    decreases s,
{
    if s.len() > 0 {
        lemma_moved_all(s.drop_last(), x);
        lemma_moved(s.last(), x);
        match move_retain_all(s.drop_last(), x) {
            Some(t) => {
                assert(t.push(s.last()).drop_last() =~= t);
            },
            None => {
                if let Some(m) = move_retain(s.last(), x) {
                    assert(s.drop_last().push(m).drop_last() =~= s.drop_last());
                }
            },
        }
    }
}

proof fn lemma_arms_pass(s: Seq<ArmNode>, x: Seq<char>, k: int, i: int)
    requires
        arms_pass(s, x, k),
        0 <= i < s.len(),
    ensures
        arm_passes(s[i], x, k),
    decreases s.len(),
{
    if i < s.len() - 1 {
        lemma_arms_pass(s.drop_last(), x, k, i);
    }
}

proof fn lemma_arm_jumps_pass(s: Seq<ArmNode>, x: Seq<char>, k: int, i: int)
    requires
        arm_jumps_pass(s, x, k),
        0 <= i < s.len(),
    ensures
        arm_jump_passes(s[i], x, k),
    decreases s.len(),
{
    if i < s.len() - 1 {
        lemma_arm_jumps_pass(s.drop_last(), x, k, i);
    }
}

/// The releases on a way are as many as every path passes.
pub proof fn ways_pass(e: Node, x: Seq<char>, k: int, p: Seq<nat>)
    requires
        passes(e, x, k),
        is_way(e, p, false),
    ensures
        tally(e, x, p).releases == k,
    decreases e,
{
    match e {
        Node::Let { name, value, next, .. } => match *value {
            Node::Try { arms, .. } => {
                if hands_on(*next, name) {
                    if p[0] == 0 {
                        ways_pass(*next, x, k, p.drop_first());
                    } else {
                        assert(value_jumps_pass(*value, x, k));
                        catch_ways_pass(arms, x, k, p.drop_first());
                    }
                } else {
                    ways_pass(*next, x, k, p);
                }
            },
            _ => ways_pass(*next, x, k, p),
        },
        Node::Release { name, next, .. } => ways_pass(
            *next,
            x,
            if name == x {
                k - 1
            } else {
                k
            },
            p,
        ),
        Node::If { then, els, .. } => {
            if p[0] == 0 {
                ways_pass(*then, x, k, p.drop_first());
            } else {
                ways_pass(*els, x, k, p.drop_first());
            }
        },
        Node::Match { arms, .. } => {
            lemma_arms_pass(arms, x, k, p[0] as int);
            arm_ways_pass(arms[p[0] as int], x, k, p.drop_first());
        },
        Node::Try { arms, .. } => {
            if p[0] != 0 {
                catch_ways_pass(arms, x, k, p.drop_first());
            }
        },
        _ => {},
    }
}

proof fn arm_ways_pass(arm: ArmNode, x: Seq<char>, k: int, p: Seq<nat>)
    requires
        arm_passes(arm, x, k),
        is_arm_way(arm, p, false),
    ensures
        arm_tally(arm, x, p).releases == k,
    decreases arm,
{
    ways_pass(*arm.body, x, k, p);
}

proof fn jump_ways_pass(e: Node, x: Seq<char>, k: int, p: Seq<nat>)
    requires
        jumps_pass(e, x, k),
        is_way(e, p, true),
    ensures
        tally(e, x, p).releases == k,
    decreases e,
{
    match e {
        Node::Let { name, value, next, .. } => match *value {
            Node::Try { arms, .. } => {
                if hands_on(*next, name) {
                    if p[0] == 0 {
                        jump_ways_pass(*next, x, k, p.drop_first());
                    } else {
                        assert(value_jumps_pass(*value, x, k));
                        catch_ways_pass(arms, x, k, p.drop_first());
                    }
                } else {
                    jump_ways_pass(*next, x, k, p);
                }
            },
            _ => jump_ways_pass(*next, x, k, p),
        },
        Node::Release { name, next, .. } => jump_ways_pass(
            *next,
            x,
            if name == x {
                k - 1
            } else {
                k
            },
            p,
        ),
        Node::If { then, els, .. } => {
            if p[0] == 0 {
                jump_ways_pass(*then, x, k, p.drop_first());
            } else {
                jump_ways_pass(*els, x, k, p.drop_first());
            }
        },
        Node::Match { arms, .. } => {
            lemma_arm_jumps_pass(arms, x, k, p[0] as int);
            arm_jump_ways_pass(arms[p[0] as int], x, k, p.drop_first());
        },
        Node::Try { arms, .. } => catch_ways_pass(arms, x, k, p.drop_first()),
        _ => {},
    }
}

proof fn catch_ways_pass(arms: Seq<ArmNode>, x: Seq<char>, k: int, p: Seq<nat>)
    requires
        arm_jumps_pass(arms, x, k),
        is_catch_way(arms, p),
    ensures
        catch_tally(arms, x, p).releases == k,
    decreases arms,
{
    lemma_arm_jumps_pass(arms, x, k, p[0] as int);
    arm_jump_ways_pass(arms[p[0] as int], x, k, p.drop_first());
}

proof fn arm_jump_ways_pass(arm: ArmNode, x: Seq<char>, k: int, p: Seq<nat>)
    requires
        arm_jump_passes(arm, x, k),
        is_arm_way(arm, p, true),
    ensures
        arm_tally(arm, x, p).releases == k,
    decreases arm,
{
    jump_ways_pass(*arm.body, x, k, p);
}

pub proof fn lemma_strip_hands_on(e: Node, x: Seq<char>, bound: Seq<char>)
    ensures
        hands_on(strip(e, x), bound) == hands_on(e, bound),
        hands_on(strip_jumps(e, x), bound) == hands_on(e, bound),
    decreases e,
{
    if let Node::Release { next, .. } = e {
        lemma_strip_hands_on(*next, x, bound);
    }
}

/// Taking out the one release of every path leaves none.
pub proof fn lemma_stripped(e: Node, x: Seq<char>)
    requires
        passes(e, x, 1),
    ensures
        passes(strip(e, x), x, 0),
    decreases e,
{
    match e {
        Node::Let { name, value, next, .. } => {
            lemma_strip_hands_on(*next, x, name);
            lemma_stripped(*next, x);
            if hands_on(*next, name) {
                lemma_stripped_value(*value, x);
            }
        },
        Node::Release { name, next, .. } => {
            if name != x {
                lemma_stripped(*next, x);
            }
        },
        Node::If { then, els, .. } => {
            lemma_stripped(*then, x);
            lemma_stripped(*els, x);
        },
        Node::Match { arms, .. } => lemma_stripped_arms(arms, x),
        _ => {},
    }
}

proof fn lemma_stripped_arm(arm: ArmNode, x: Seq<char>)
    requires
        arm_passes(arm, x, 1),
    ensures
        arm_passes(strip_arm(arm, x), x, 0),
    decreases arm,
{
    lemma_stripped(*arm.body, x);
}

proof fn lemma_stripped_arms(s: Seq<ArmNode>, x: Seq<char>)
    requires
        arms_pass(s, x, 1),
    ensures
        arms_pass(strip_arms(s, x), x, 0),
    decreases s,
{
    if s.len() > 0 {
        lemma_stripped_arms(s.drop_last(), x);
        lemma_stripped_arm(s.last(), x);
        let t = strip_arms(s.drop_last(), x);
        assert(t.push(strip_arm(s.last(), x)).drop_last() =~= t);
    }
}

proof fn lemma_stripped_jumps(e: Node, x: Seq<char>)
    requires
        jumps_pass(e, x, 1),
    ensures
        jumps_pass(strip_jumps(e, x), x, 0),
    decreases e,
{
    match e {
        Node::Let { name, value, next, .. } => {
            lemma_strip_hands_on(*next, x, name);
            lemma_stripped_jumps(*next, x);
            if hands_on(*next, name) {
                lemma_stripped_value(*value, x);
            }
        },
        Node::Release { name, next, .. } => {
            if name != x {
                lemma_stripped_jumps(*next, x);
            }
        },
        Node::If { then, els, .. } => {
            lemma_stripped_jumps(*then, x);
            lemma_stripped_jumps(*els, x);
        },
        Node::Match { arms, .. } => lemma_stripped_arm_jumps(arms, x),
        Node::Try { arms, .. } => lemma_stripped_arm_jumps(arms, x),
        _ => {},
    }
}

proof fn lemma_stripped_value(value: Node, x: Seq<char>)
    requires
        value_jumps_pass(value, x, 1),
    ensures
        value_jumps_pass(strip_value_jumps(value, x), x, 0),
    decreases value,
{
    if let Node::Try { arms, .. } = value {
        lemma_stripped_arm_jumps(arms, x);
    }
}

proof fn lemma_stripped_arm_jump(arm: ArmNode, x: Seq<char>)
    requires
        arm_jump_passes(arm, x, 1),
    ensures
        arm_jump_passes(strip_arm_jump(arm, x), x, 0),
    decreases arm,
{
    lemma_stripped_jumps(*arm.body, x);
}

proof fn lemma_stripped_arm_jumps(s: Seq<ArmNode>, x: Seq<char>)
    requires
        arm_jumps_pass(s, x, 1),
    ensures
        arm_jumps_pass(strip_arm_jumps(s, x), x, 0),
    decreases s,
{
    if s.len() > 0 {
        lemma_stripped_arm_jumps(s.drop_last(), x);
        lemma_stripped_arm_jump(s.last(), x);
        let t = strip_arm_jumps(s.drop_last(), x);
        assert(t.push(strip_arm_jump(s.last(), x)).drop_last() =~= t);
    }
}

/// Taking out releases leaves the retains of every binding.
pub proof fn lemma_strip_retains(e: Node, y: Seq<char>, x: Seq<char>)
    ensures
        retains(strip(e, y), x) == retains(e, x),
        retains(strip_jumps(e, y), x) == retains(e, x),
    decreases e,
{
    match e {
        Node::Release { next, .. } => lemma_strip_retains(*next, y, x),
        Node::Let { value, next, .. } => {
            lemma_strip_retains(*next, y, x);
            lemma_strip_value_retains(*value, y, x);
        },
        Node::If { then, els, .. } => {
            lemma_strip_retains(*then, y, x);
            lemma_strip_retains(*els, y, x);
        },
        Node::Match { arms, .. } => lemma_strip_arms_retains(arms, y, x),
        Node::Try { arms, .. } => lemma_strip_arms_retains(arms, y, x),
        _ => {},
    }
}

pub proof fn lemma_strip_value_retains(value: Node, y: Seq<char>, x: Seq<char>)
    ensures
        retains(strip_value_jumps(value, y), x) == retains(value, x),
    decreases value,
{
    if let Node::Try { arms, .. } = value {
        lemma_strip_arms_retains(arms, y, x);
    }
}

proof fn lemma_strip_arm_retains(arm: ArmNode, y: Seq<char>, x: Seq<char>)
    ensures
        retains_arm(strip_arm(arm, y), x) == retains_arm(arm, x),
        retains_arm(strip_arm_jump(arm, y), x) == retains_arm(arm, x),
    decreases arm,
{
    lemma_strip_retains(*arm.body, y, x);
}

proof fn lemma_strip_arms_retains(s: Seq<ArmNode>, y: Seq<char>, x: Seq<char>)
    ensures
        retains_arms(strip_arms(s, y), x) == retains_arms(s, x),
        retains_arms(strip_arm_jumps(s, y), x) == retains_arms(s, x),
    decreases s,
{
    if s.len() > 0 {
        lemma_strip_arms_retains(s.drop_last(), y, x);
        lemma_strip_arm_retains(s.last(), y, x);
        let t = strip_arms(s.drop_last(), y);
        assert(t.push(strip_arm(s.last(), y)).drop_last() =~= t);
        let u = strip_arm_jumps(s.drop_last(), y);
        assert(u.push(strip_arm_jump(s.last(), y)).drop_last() =~= u);
    }
}

pub proof fn lemma_strip_arms_len(s: Seq<ArmNode>, x: Seq<char>)
    ensures
        strip_arms(s, x).len() == s.len(),
        strip_arm_jumps(s, x).len() == s.len(),
        forall|i: int|
            0 <= i < s.len() ==> #[trigger] strip_arms(s, x)[i] == strip_arm(s[i], x),
        forall|i: int|
            0 <= i < s.len() ==> #[trigger] strip_arm_jumps(s, x)[i] == strip_arm_jump(s[i], x),
    decreases s.len(),
{
    if s.len() > 0 {
        lemma_strip_arms_len(s.drop_last(), x);
    }
}

/// Taking out releases leaves every way and the retains on it.
pub proof fn lemma_strip_ways(e: Node, y: Seq<char>, x: Seq<char>, p: Seq<nat>, jumping: bool)
    ensures
        is_way(strip(e, y), p, jumping) == is_way(e, p, jumping),
        is_way(e, p, jumping) ==> tally(strip(e, y), x, p).retains == tally(e, x, p).retains,
        is_way(strip_jumps(e, y), p, jumping) == is_way(e, p, jumping),
        is_way(e, p, jumping) ==> tally(strip_jumps(e, y), x, p).retains == tally(e, x, p).retains,
    decreases e,
{
    match e {
        Node::Let { name, value, next, .. } => {
            lemma_strip_hands_on(*next, y, name);
            lemma_strip_value_retains(*value, y, x);
            lemma_strip_ways(*next, y, x, p, jumping);
            lemma_strip_ways(*next, y, x, p.drop_first(), jumping);
            if let Node::Try { arms, .. } = *value {
                lemma_strip_catch_ways(arms, y, x, p.drop_first());
            }
        },
        Node::Release { next, .. } => lemma_strip_ways(*next, y, x, p, jumping),
        Node::If { then, els, .. } => {
            lemma_strip_ways(*then, y, x, p.drop_first(), jumping);
            lemma_strip_ways(*els, y, x, p.drop_first(), jumping);
        },
        Node::Match { arms, .. } => {
            lemma_strip_arms_len(arms, y);
            if p.len() > 0 && p[0] < arms.len() {
                lemma_strip_arm_ways(arms[p[0] as int], y, x, p.drop_first(), jumping);
                assert(strip_arms(arms, y)[p[0] as int] == strip_arm(arms[p[0] as int], y));
                assert(strip_arm_jumps(arms, y)[p[0] as int] == strip_arm_jump(
                    arms[p[0] as int],
                    y,
                ));
            }
        },
        Node::Try { arms, .. } => {
            lemma_strip_arms_retains(arms, y, x);
            lemma_strip_retains(e, y, x);
            lemma_strip_catch_ways(arms, y, x, p.drop_first());
        },
        _ => {},
    }
}

proof fn lemma_strip_catch_ways(arms: Seq<ArmNode>, y: Seq<char>, x: Seq<char>, p: Seq<nat>)
    ensures
        is_catch_way(strip_arm_jumps(arms, y), p) == is_catch_way(arms, p),
        is_catch_way(arms, p) ==> catch_tally(strip_arm_jumps(arms, y), x, p).retains
            == catch_tally(arms, x, p).retains,
    decreases arms,
{
    lemma_strip_arms_len(arms, y);
    if p.len() > 0 && p[0] < arms.len() {
        lemma_strip_arm_ways(arms[p[0] as int], y, x, p.drop_first(), true);
        assert(strip_arm_jumps(arms, y)[p[0] as int] == strip_arm_jump(arms[p[0] as int], y));
    }
}

proof fn lemma_strip_arm_ways(arm: ArmNode, y: Seq<char>, x: Seq<char>, p: Seq<nat>, jumping: bool)
    ensures
        is_arm_way(strip_arm(arm, y), p, jumping) == is_arm_way(arm, p, jumping),
        is_arm_way(arm, p, jumping) ==> arm_tally(strip_arm(arm, y), x, p).retains == arm_tally(
            arm,
            x,
            p,
        ).retains,
        is_arm_way(strip_arm_jump(arm, y), p, jumping) == is_arm_way(arm, p, jumping),
        is_arm_way(arm, p, jumping) ==> arm_tally(strip_arm_jump(arm, y), x, p).retains
            == arm_tally(arm, x, p).retains,
    decreases arm,
{
    lemma_strip_ways(*arm.body, y, x, p, jumping);
}

pub proof fn lemma_optimize_hands_on(e: Node, x: Seq<char>, bound: Seq<char>)
    ensures
        hands_on(optimize(e, x), bound) == hands_on(e, bound),
    decreases e,
{
    if let Node::Release { next, .. } = e {
        lemma_optimize_hands_on(*next, x, bound);
    }
}

pub proof fn lemma_optimize_arms_len(s: Seq<ArmNode>, x: Seq<char>)
    ensures
        optimize_arms(s, x).len() == s.len(),
        forall|i: int|
            0 <= i < s.len() ==> #[trigger] optimize_arms(s, x)[i] == optimize_arm(s[i], x),
    decreases s.len(),
{
    if s.len() > 0 {
        lemma_optimize_arms_len(s.drop_last(), x);
    }
}

/// Whether a way releases a binding or moves it, and not both: `before` and
/// `after` are what stands on it without moves and with them.
pub open spec fn settles(before: Tally, after: Tally) -> bool {
    ||| before.releases == 1 && after.releases == 1 && after.retains == before.retains
    ||| before.releases == 1 && after.releases == 0 && after.retains + 1 == before.retains
}

/// In a scope that releases `x` once on every path, turning its last use into a
/// move leaves every way, and on each, jumps out of catch arms included, `x` is
/// released once or moved once, and never both.
pub proof fn moves_keep_the_balance(e: Node, x: Seq<char>, p: Seq<nat>)
    requires
        passes(e, x, 1),
        is_way(e, p, false),
    ensures
        is_way(optimize(e, x), p, false),
        settles(tally(e, x, p), tally(optimize(e, x), x, p)),
    decreases e,
{
    ways_pass(e, x, 1, p);
    match e {
        Node::Release { name, next, .. } => {
            if name != x {
                moves_keep_the_balance(*next, x, p);
            }
        },
        Node::Let { name, value, next, .. } => {
            lemma_optimize_hands_on(*next, x, name);
            lemma_strip_hands_on(*next, x, name);
            lemma_moved(*value, x);
            let wrapped = *value is Try && hands_on(*next, name);
            if !wrapped {
                moves_keep_the_balance(*next, x, p);
                lemma_stripped(*next, x);
                lemma_strip_ways(*next, x, x, p, false);
                ways_pass(strip(*next, x), x, 0, p);
                ways_pass(*next, x, 1, p);
            } else if p[0] == 0 {
                moves_keep_the_balance(*next, x, p.drop_first());
            }
        },
        Node::If { then, els, .. } => {
            if p[0] == 0 {
                moves_keep_the_balance(*then, x, p.drop_first());
            } else {
                moves_keep_the_balance(*els, x, p.drop_first());
            }
        },
        Node::Match { arms, .. } => {
            let i = p[0] as int;
            lemma_optimize_arms_len(arms, x);
            lemma_arms_pass(arms, x, 1, i);
            moves_keep_the_arm_balance(arms[i], x, p.drop_first());
            assert(optimize_arms(arms, x)[i] == optimize_arm(arms[i], x));
        },
        _ => {},
    }
}

proof fn moves_keep_the_arm_balance(arm: ArmNode, x: Seq<char>, p: Seq<nat>)
    requires
        arm_passes(arm, x, 1),
        is_arm_way(arm, p, false),
    ensures
        is_arm_way(optimize_arm(arm, x), p, false),
        settles(arm_tally(arm, x, p), arm_tally(optimize_arm(arm, x), x, p)),
    decreases arm,
{
    moves_keep_the_balance(*arm.body, x, p);
}

} // verus!
