//! Where an expression stands in a body, and what holds of every binding of a
//! managed body at its place.

use vstd::prelude::*;

use crate::ir::{ArmNode, Bind, Node};
use crate::rc::absent::{absent, absent_all, arm_absent, arms_absent};
use crate::rc::count::{kept, kept_on};
use crate::rc::elide::{
    elided, elided_all, elided_arm, elided_arms, elided_body, optimize, optimize_arm,
    optimize_arms, optimize_params, uses, uses_all, uses_arm, uses_arms,
};
use crate::rc::laws::passes;
use crate::rc::moves::{
    is_way, lemma_moved, retains, retains_arm, retains_arms, settles, tally, ways_pass,
};
use crate::rc::settle::{
    bindings_are_settled, lemma_elided_passes, lemma_elided_retains, lemma_elided_ways,
};
use crate::rc::steady::{lemma_elided_kept, lemma_elided_on, lemma_thin_kept, lemma_thin_on};
use crate::rc::thin::{
    arm_thinner, arms_thinner, lemma_all_at, lemma_arms_at, lemma_counts, lemma_still_absent,
    lemma_uses, lemma_ways, moves_only_thin, thinner,
};
use crate::types::heap;

verus! {

/// An expression below the releases and retains that stand on it.
pub open spec fn bare(e: Node) -> Node
    decreases e,
{
    match e {
        Node::Release { next, .. } => bare(*next),
        Node::Retain { value } => bare(*value),
        _ => e,
    }
}

/// A part of the arms of a `match` or a `try`: the guard of the first, its body, the
/// guard of the second, and so on.
pub open spec fn arm_part(arms: Seq<ArmNode>, i: nat) -> Option<Node> {
    let k = (i / 2) as int;
    if k >= arms.len() {
        None
    } else if i % 2 == 1 {
        Some(*arms[k].body)
    } else {
        match arms[k].guard {
            Some(guard) => Some(*guard),
            None => None,
        }
    }
}

/// An expression of a list.
pub open spec fn item(s: Seq<Node>, i: nat) -> Option<Node> {
    if i < s.len() {
        Some(s[i as int])
    } else {
        None
    }
}

/// A part of an expression, in the order in which they are written.
pub open spec fn part(e: Node, i: nat) -> Option<Node> {
    match e {
        Node::Let { value, next, .. } => if i == 0 {
            Some(*value)
        } else if i == 1 {
            Some(*next)
        } else {
            None
        },
        Node::Fn { body, .. } => if i == 0 {
            Some(*body)
        } else {
            None
        },
        Node::Call { callee, args, .. } => if i == 0 {
            Some(*callee)
        } else {
            item(args, (i - 1) as nat)
        },
        Node::Platform { args, .. } => item(args, i),
        Node::Intrinsic { args, .. } => item(args, i),
        Node::TailSelfCall { args, .. } => item(args, i),
        Node::Array { elems, .. } => item(elems, i),
        Node::EnumValue { payload, .. } => item(payload, i),
        Node::RecordValue { fields, .. } => item(fields, i),
        Node::Throw { value } => if i == 0 {
            Some(*value)
        } else {
            None
        },
        Node::Question { value, .. } => if i == 0 {
            Some(*value)
        } else {
            None
        },
        Node::FieldAccess { target, .. } => if i == 0 {
            Some(*target)
        } else {
            None
        },
        Node::Panic { message } => if i == 0 {
            Some(*message)
        } else {
            None
        },
        Node::CharFromCode(value) => if i == 0 {
            Some(*value)
        } else {
            None
        },
        Node::StringFromChar(value) => if i == 0 {
            Some(*value)
        } else {
            None
        },
        Node::Binary { left, right, .. } => if i == 0 {
            Some(*left)
        } else if i == 1 {
            Some(*right)
        } else {
            None
        },
        Node::Concat { left, right } => if i == 0 {
            Some(*left)
        } else if i == 1 {
            Some(*right)
        } else {
            None
        },
        Node::If { cond, then, els, .. } => if i == 0 {
            Some(*cond)
        } else if i == 1 {
            Some(*then)
        } else if i == 2 {
            Some(*els)
        } else {
            None
        },
        Node::Match { scrutinee, arms, .. } => if i == 0 {
            Some(*scrutinee)
        } else {
            arm_part(arms, (i - 1) as nat)
        },
        Node::Try { body, arms, .. } => if i == 0 {
            Some(*body)
        } else {
            arm_part(arms, (i - 1) as nat)
        },
        _ => None,
    }
}

/// What stands at a place in `e`: which part to go to at each step, releases and
/// retains not counted.
pub open spec fn at(e: Node, path: Seq<nat>) -> Option<Node>
    decreases path.len(),
{
    if path.len() == 0 {
        Some(bare(e))
    } else {
        match part(bare(e), path[0]) {
            Some(c) => at(c, path.drop_first()),
            None => None,
        }
    }
}

/// Whether the way to a place in `e` goes into a lambda.
pub open spec fn enters_lambda(e: Node, path: Seq<nat>) -> bool
    decreases path.len(),
{
    path.len() > 0 && (bare(e) is Fn || (part(bare(e), path[0]) matches Some(c) && enters_lambda(
        c,
        path.drop_first(),
    )))
}

/// Whether nothing in the scope of a heap binding in `e` has its name: not in that
/// of a `let`, of a parameter of a lambda, nor in the arms that a caught error is
/// bound for.
pub open spec fn scopes_apart(e: Node) -> bool
    decreases e,
{
    match e {
        Node::Let { name, value_ty, value, next } => {
            &&& heap(value_ty) ==> absent(*next, name)
            &&& scopes_apart(*value)
            &&& scopes_apart(*next)
        },
        Node::Fn { params, body, .. } => {
            &&& forall|i: int|
                0 <= i < params.len() && heap((#[trigger] params[i]).ty) ==> absent(
                    *body,
                    params[i].name,
                )
            &&& scopes_apart(*body)
        },
        Node::Release { next, .. } => scopes_apart(*next),
        Node::Retain { value } => scopes_apart(*value),
        Node::Call { callee, args, .. } => scopes_apart(*callee) && all_scopes_apart(args),
        Node::Platform { args, .. } => all_scopes_apart(args),
        Node::Intrinsic { args, .. } => all_scopes_apart(args),
        Node::TailSelfCall { args, .. } => all_scopes_apart(args),
        Node::Array { elems, .. } => all_scopes_apart(elems),
        Node::EnumValue { payload, .. } => all_scopes_apart(payload),
        Node::RecordValue { fields, .. } => all_scopes_apart(fields),
        Node::Throw { value } => scopes_apart(*value),
        Node::Question { value, .. } => scopes_apart(*value),
        Node::FieldAccess { target, .. } => scopes_apart(*target),
        Node::Panic { message } => scopes_apart(*message),
        Node::CharFromCode(value) => scopes_apart(*value),
        Node::StringFromChar(value) => scopes_apart(*value),
        Node::Binary { left, right, .. } => scopes_apart(*left) && scopes_apart(*right),
        Node::Concat { left, right } => scopes_apart(*left) && scopes_apart(*right),
        Node::If { cond, then, els, .. } => scopes_apart(*cond) && scopes_apart(*then)
            && scopes_apart(*els),
        Node::Match { scrutinee, arms, .. } => scopes_apart(*scrutinee) && arm_scopes_apart(arms),
        Node::Try { body, arms, err_name, .. } => {
            &&& err_name matches Some(x) ==> arms_absent(arms, x)
            &&& scopes_apart(*body)
            &&& arm_scopes_apart(arms)
        },
        _ => true,
    }
}

/// [`scopes_apart`] of every expression of a list.
pub open spec fn all_scopes_apart(s: Seq<Node>) -> bool
    decreases s,
{
    s.len() == 0 || (all_scopes_apart(s.drop_last()) && scopes_apart(s.last()))
}

/// [`scopes_apart`] of an arm.
pub open spec fn arm_scope_apart(arm: ArmNode) -> bool
    decreases arm,
{
    (match arm.guard {
        Some(guard) => scopes_apart(*guard),
        None => true,
    }) && scopes_apart(*arm.body)
}

/// [`scopes_apart`] of every arm of a list.
pub open spec fn arm_scopes_apart(s: Seq<ArmNode>) -> bool
    decreases s,
{
    s.len() == 0 || (arm_scopes_apart(s.drop_last()) && arm_scope_apart(s.last()))
}

/// Whether, on every way through `scope`, `x` is released once or moved once, and
/// never both: `left` is what is left of the scope once last uses are moves.
pub open spec fn is_settled(x: Seq<char>, scope: Node, left: Node) -> bool {
    forall|w: Seq<nat>| #[trigger]
        is_way(scope, w, false) ==> is_way(left, w, false) && settles(
            tally(scope, x, w),
            tally(left, x, w),
        )
}

/// Whether `x`, which its scope neither releases nor retains, is read in what is
/// left of the scope as before, and neither released nor retained there.
pub open spec fn is_unchanged(x: Seq<char>, scope: Node, left: Node) -> bool {
    &&& uses(left, x) == uses(scope, x)
    &&& retains(left, x) == 0
    &&& forall|w: Seq<nat>| #[trigger]
        is_way(scope, w, false) ==> is_way(left, w, false) && tally(left, x, w) == tally(scope, x, w)
}

/// Whether what is left of a scope keeps the reference to `x` where the scope does,
/// and has no other ways.
pub open spec fn is_as_kept(x: Seq<char>, scope: Node, left: Node) -> bool {
    &&& kept(left, x, true) == kept(scope, x, true)
    &&& forall|w: Seq<nat>| #[trigger]
        is_way(left, w, false) ==> is_way(scope, w, false) && kept_on(left, x, w) == kept_on(
            scope,
            x,
            w,
        )
}

/// Whether a place that holds the `let` of a value still holds it once last uses
/// are moves, keeping references as before: settled, if its scope releases the value once on every path, and
/// read as before, if the scope neither releases nor retains it. One that holds a
/// lambda holds the lambda with its own moves.
pub open spec fn is_kept(c: Option<Node>, d: Option<Node>) -> bool {
    match c {
        Some(Node::Let { name, value_ty, next, .. }) => {
            &&& d matches Some(Node::Let { name: n, value_ty: t, next: left, .. })
            &&& n == name && t == value_ty
            &&& is_as_kept(name, *next, *left)
            &&& passes(*next, name, 1) ==> is_settled(name, *next, *left)
            &&& passes(*next, name, 0) && retains(*next, name) == 0 ==> is_unchanged(
                name,
                *next,
                *left,
            )
        },
        Some(Node::Fn { .. }) => d == Some(elided(c->0)),
        _ => false,
    }
}

/// Whether a place holds the `let` of a heap value, or a lambda.
pub open spec fn is_owner(c: Option<Node>) -> bool {
    match c {
        Some(Node::Let { value_ty, .. }) => heap(value_ty),
        Some(Node::Fn { .. }) => true,
        _ => false,
    }
}

proof fn lemma_bare(a: Node, b: Node, y: Seq<char>)
    requires
        thinner(a, b, y),
    ensures
        thinner(bare(a), bare(b), y),
    decreases a,
{
    if a == b {
        return;
    }
    match a {
        Node::Release { name, next, .. } => {
            if name == y && thinner(*next, b, y) {
                lemma_bare(*next, b, y);
            } else if let Node::Release { next: m, .. } = b {
                lemma_bare(*next, *m, y);
            }
        },
        Node::Retain { value } => {
            if *value is Var && b == *value {
                assert(bare(*value) == *value);
            } else if let Node::Retain { value: v } = b {
                lemma_bare(*value, *v, y);
            }
        },
        _ => {},
    }
}

proof fn lemma_is_bare(e: Node)
    ensures
        !(bare(e) is Release) && !(bare(e) is Retain),
        bare(bare(e)) == bare(e),
    decreases e,
{
    match e {
        Node::Release { next, .. } => lemma_is_bare(*next),
        Node::Retain { value } => lemma_is_bare(*value),
        _ => {},
    }
}

/// The parts of a thinner expression.
proof fn lemma_part(a: Node, b: Node, y: Seq<char>, i: nat)
    requires
        thinner(a, b, y),
        !(a is Release) && !(a is Retain),
    ensures
        part(a, i) is Some == part(b, i) is Some,
        part(a, i) matches Some(c) ==> part(b, i) matches Some(f) && thinner(c, f, y),
        a is Fn ==> a == b,
        !(b is Release) && !(b is Retain),
{
    if a == b {
        if let Some(c) = part(a, i) {
            assert(thinner(c, c, y));
        }
        return;
    }
    match a {
        Node::Call { args, .. } => {
            if let Node::Call { args: t, .. } = b {
                lemma_all_at(args, t, y);
            }
        },
        Node::Platform { args, .. } => {
            if let Node::Platform { args: t, .. } = b {
                lemma_all_at(args, t, y);
            }
        },
        Node::Intrinsic { args, .. } => {
            if let Node::Intrinsic { args: t, .. } = b {
                lemma_all_at(args, t, y);
            }
        },
        Node::TailSelfCall { args, .. } => {
            if let Node::TailSelfCall { args: t, .. } = b {
                lemma_all_at(args, t, y);
            }
        },
        Node::Array { elems, .. } => {
            if let Node::Array { elems: t, .. } = b {
                lemma_all_at(elems, t, y);
            }
        },
        Node::EnumValue { payload, .. } => {
            if let Node::EnumValue { payload: t, .. } = b {
                lemma_all_at(payload, t, y);
            }
        },
        Node::RecordValue { fields, .. } => {
            if let Node::RecordValue { fields: t, .. } = b {
                lemma_all_at(fields, t, y);
            }
        },
        Node::Match { arms, .. } => {
            if let Node::Match { arms: t, .. } = b {
                lemma_arms_at(arms, t, y);
                if i > 0 {
                    lemma_arm_part(arms, t, y, (i - 1) as nat);
                }
            }
        },
        Node::Try { arms, .. } => {
            if let Node::Try { arms: t, .. } = b {
                lemma_arms_at(arms, t, y);
                if i > 0 {
                    lemma_arm_part(arms, t, y, (i - 1) as nat);
                }
            }
        },
        _ => {},
    }
}

proof fn lemma_arm_part(s: Seq<ArmNode>, t: Seq<ArmNode>, y: Seq<char>, i: nat)
    requires
        arms_thinner(s, t, y),
    ensures
        arm_part(s, i) is Some == arm_part(t, i) is Some,
        arm_part(s, i) matches Some(c) ==> arm_part(t, i) matches Some(f) && thinner(c, f, y),
{
    lemma_arms_at(s, t, y);
    let k = (i / 2) as int;
    if k < s.len() {
        assert(arm_thinner(s[k], t[k], y));
        if i % 2 == 0 {
            if let Some(guard) = s[k].guard {
                assert(thinner(*guard, *guard, y));
            }
        }
    }
}

/// What stands at a place in a thinner expression.
proof fn lemma_at(a: Node, b: Node, y: Seq<char>, path: Seq<nat>)
    requires
        thinner(a, b, y),
    ensures
        at(a, path) is Some == at(b, path) is Some,
        at(a, path) matches Some(c) ==> at(b, path) matches Some(f) && thinner(c, f, y) && (
        enters_lambda(a, path) ==> c == f),
    decreases path.len(),
{
    lemma_bare(a, b, y);
    lemma_is_bare(a);
    if path.len() > 0 {
        lemma_part(bare(a), bare(b), y, path[0]);
        if let Some(c) = part(bare(a), path[0]) {
            if let Some(f) = part(bare(b), path[0]) {
                lemma_at(c, f, y, path.drop_first());
            }
        }
    }
}

proof fn lemma_bare_absent(e: Node, y: Seq<char>)
    requires
        absent(e, y),
    ensures
        absent(bare(e), y),
    decreases e,
{
    match e {
        Node::Release { next, .. } => lemma_bare_absent(*next, y),
        Node::Retain { value } => lemma_bare_absent(*value, y),
        _ => {},
    }
}

proof fn lemma_item_absent(s: Seq<Node>, y: Seq<char>, i: nat)
    requires
        absent_all(s, y),
    ensures
        item(s, i) matches Some(c) ==> absent(c, y),
    decreases s.len(),
{
    if s.len() > 0 {
        lemma_item_absent(s.drop_last(), y, i);
    }
}

proof fn lemma_arm_part_absent(s: Seq<ArmNode>, y: Seq<char>, i: nat)
    requires
        arms_absent(s, y),
    ensures
        arm_part(s, i) matches Some(c) ==> absent(c, y),
    decreases s.len(),
{
    if s.len() > 0 {
        lemma_arm_part_absent(s.drop_last(), y, i);
        assert(arm_absent(s.last(), y));
    }
}

proof fn lemma_part_absent(e: Node, y: Seq<char>, i: nat)
    requires
        absent(e, y),
        !(e is Fn),
    ensures
        part(e, i) matches Some(c) ==> absent(c, y),
{
    match e {
        Node::Call { args, .. } => {
            if i > 0 {
                lemma_item_absent(args, y, (i - 1) as nat);
            }
        },
        Node::Platform { args, .. } => lemma_item_absent(args, y, i),
        Node::Intrinsic { args, .. } => lemma_item_absent(args, y, i),
        Node::TailSelfCall { args, .. } => lemma_item_absent(args, y, i),
        Node::Array { elems, .. } => lemma_item_absent(elems, y, i),
        Node::EnumValue { payload, .. } => lemma_item_absent(payload, y, i),
        Node::RecordValue { fields, .. } => lemma_item_absent(fields, y, i),
        Node::Match { arms, .. } => {
            if i > 0 {
                lemma_arm_part_absent(arms, y, (i - 1) as nat);
            }
        },
        Node::Try { arms, .. } => {
            if i > 0 {
                lemma_arm_part_absent(arms, y, (i - 1) as nat);
            }
        },
        _ => {},
    }
}

/// A `let` outside lambdas does not bind a name that is absent.
proof fn lemma_other_name(e: Node, y: Seq<char>, path: Seq<nat>)
    requires
        absent(e, y),
        !enters_lambda(e, path),
    ensures
        at(e, path) matches Some(Node::Let { name, .. }) ==> name != y,
    decreases path.len(),
{
    lemma_bare_absent(e, y);
    if path.len() > 0 {
        lemma_part_absent(bare(e), y, path[0]);
        if let Some(c) = part(bare(e), path[0]) {
            lemma_other_name(c, y, path.drop_first());
        }
    }
}

/// What is settled stays so when the last use of another binding becomes a move.
proof fn lemma_carried(c: Option<Node>, e: Node, y: Seq<char>, path: Seq<nat>)
    requires
        absent(e, y),
        is_kept(c, at(e, path)),
    ensures
        is_kept(c, at(optimize(e, y), path)),
{
    let o = optimize(e, y);
    moves_only_thin(e, y);
    lemma_at(e, o, y, path);
    if !enters_lambda(e, path) {
        lemma_other_name(e, y, path);
        if let Some(Node::Let { name, next, .. }) = c {
            if let Some(Node::Let { next: l, .. }) = at(e, path) {
                if let Some(Node::Let { next: m, .. }) = at(o, path) {
                    assert(thinner(*l, *m, y));
                    lemma_uses(*l, *m, y, name);
                    lemma_counts(*l, *m, y, name);
                    lemma_thin_kept(*l, *m, y, name, true);
                    assert forall|w: Seq<nat>| #[trigger] is_way(*m, w, false) implies is_way(
                        *l,
                        w,
                        false,
                    ) && kept_on(*m, name, w) == kept_on(*l, name, w) by {
                        lemma_thin_on(*l, *m, y, name, w, false);
                    }
                    assert(is_as_kept(name, *next, *m));
                    assert forall|w: Seq<nat>| #[trigger]
                        is_way(*l, w, false) implies is_way(*m, w, false) && tally(*m, name, w)
                        == tally(*l, name, w) by {
                        lemma_ways(*l, *m, y, name, w, false);
                    }
                }
            }
        }
    }
}

/// The moves bind nothing.
pub proof fn lemma_elided_absent(e: Node, x: Seq<char>)
    requires
        absent(e, x),
        scopes_apart(e),
    ensures
        absent(elided(e), x),
    decreases e,
{
    match e {
        Node::Let { name, value_ty, value, next } => {
            lemma_elided_absent(*value, x);
            lemma_elided_absent(*next, x);
            if heap(value_ty) {
                lemma_elided_absent(*next, name);
                lemma_optimized_absent(elided(*next), name, x);
            }
        },
        Node::Release { next, .. } => lemma_elided_absent(*next, x),
        Node::Retain { value } => lemma_elided_absent(*value, x),
        Node::Call { callee, args, .. } => {
            lemma_elided_absent(*callee, x);
            lemma_elided_absent_all(args, x);
        },
        Node::Platform { args, .. } => lemma_elided_absent_all(args, x),
        Node::Intrinsic { args, .. } => lemma_elided_absent_all(args, x),
        Node::TailSelfCall { args, .. } => lemma_elided_absent_all(args, x),
        Node::Array { elems, .. } => lemma_elided_absent_all(elems, x),
        Node::EnumValue { payload, .. } => lemma_elided_absent_all(payload, x),
        Node::RecordValue { fields, .. } => lemma_elided_absent_all(fields, x),
        Node::Throw { value } => lemma_elided_absent(*value, x),
        Node::Question { value, .. } => lemma_elided_absent(*value, x),
        Node::FieldAccess { target, .. } => lemma_elided_absent(*target, x),
        Node::Panic { message } => lemma_elided_absent(*message, x),
        Node::CharFromCode(value) => lemma_elided_absent(*value, x),
        Node::StringFromChar(value) => lemma_elided_absent(*value, x),
        Node::Binary { left, right, .. } => {
            lemma_elided_absent(*left, x);
            lemma_elided_absent(*right, x);
        },
        Node::Concat { left, right } => {
            lemma_elided_absent(*left, x);
            lemma_elided_absent(*right, x);
        },
        Node::If { cond, then, els, .. } => {
            lemma_elided_absent(*cond, x);
            lemma_elided_absent(*then, x);
            lemma_elided_absent(*els, x);
        },
        Node::Match { scrutinee, arms, .. } => {
            lemma_elided_absent(*scrutinee, x);
            lemma_elided_absent_arms(arms, None, x);
        },
        Node::Try { body, arms, err_name, .. } => {
            lemma_elided_absent(*body, x);
            lemma_elided_absent_arms(arms, err_name, x);
        },
        _ => {},
    }
}

proof fn lemma_optimized_absent(e: Node, y: Seq<char>, x: Seq<char>)
    requires
        absent(e, y),
        absent(e, x),
    ensures
        absent(optimize(e, y), x),
{
    moves_only_thin(e, y);
    lemma_still_absent(e, optimize(e, y), y, x);
}

proof fn lemma_elided_absent_all(s: Seq<Node>, x: Seq<char>)
    requires
        absent_all(s, x),
        all_scopes_apart(s),
    ensures
        absent_all(elided_all(s), x),
    decreases s,
{
    if s.len() > 0 {
        lemma_elided_absent_all(s.drop_last(), x);
        lemma_elided_absent(s.last(), x);
        assert(elided_all(s).drop_last() =~= elided_all(s.drop_last()));
    }
}

proof fn lemma_elided_absent_arm(arm: ArmNode, err: Option<Seq<char>>, x: Seq<char>)
    requires
        arm_absent(arm, x),
        arm_scope_apart(arm),
        err matches Some(y) ==> arm_absent(arm, y),
    ensures
        arm_absent(elided_arm(arm, err), x),
    decreases arm,
{
    if let Some(guard) = arm.guard {
        lemma_elided_absent(*guard, x);
    }
    lemma_elided_absent(*arm.body, x);
    if let Some(y) = err {
        lemma_elided_absent(*arm.body, y);
        lemma_optimized_absent(elided(*arm.body), y, x);
    }
}

proof fn lemma_elided_absent_arms(s: Seq<ArmNode>, err: Option<Seq<char>>, x: Seq<char>)
    requires
        arms_absent(s, x),
        arm_scopes_apart(s),
        err matches Some(y) ==> arms_absent(s, y),
    ensures
        arms_absent(elided_arms(s, err), x),
    decreases s,
{
    if s.len() > 0 {
        lemma_elided_absent_arms(s.drop_last(), err, x);
        lemma_elided_absent_arm(s.last(), err, x);
        assert(elided_arms(s, err).drop_last() =~= elided_arms(s.drop_last(), err));
    }
}


proof fn lemma_optimized_uses(e: Node, y: Seq<char>, x: Seq<char>)
    requires
        absent(e, y),
    ensures
        uses(optimize(e, y), x) == uses(e, x),
{
    moves_only_thin(e, y);
    lemma_uses(e, optimize(e, y), y, x);
}

/// The moves leave reads in place.
proof fn lemma_elided_uses(e: Node, x: Seq<char>)
    requires
        scopes_apart(e),
    ensures
        uses(elided(e), x) == uses(e, x),
    decreases e,
{
    match e {
        Node::Let { name, value_ty, value, next } => {
            lemma_elided_uses(*value, x);
            lemma_elided_uses(*next, x);
            if heap(value_ty) {
                lemma_elided_absent(*next, name);
                lemma_optimized_uses(elided(*next), name, x);
            }
        },
        Node::Release { next, .. } => lemma_elided_uses(*next, x),
        Node::Retain { value } => lemma_elided_uses(*value, x),
        Node::Call { callee, args, .. } => {
            lemma_elided_uses(*callee, x);
            lemma_elided_uses_all(args, x);
        },
        Node::Platform { args, .. } => lemma_elided_uses_all(args, x),
        Node::Intrinsic { args, .. } => lemma_elided_uses_all(args, x),
        Node::TailSelfCall { args, .. } => lemma_elided_uses_all(args, x),
        Node::Array { elems, .. } => lemma_elided_uses_all(elems, x),
        Node::EnumValue { payload, .. } => lemma_elided_uses_all(payload, x),
        Node::RecordValue { fields, .. } => lemma_elided_uses_all(fields, x),
        Node::Throw { value } => lemma_elided_uses(*value, x),
        Node::Question { value, .. } => lemma_elided_uses(*value, x),
        Node::FieldAccess { target, .. } => lemma_elided_uses(*target, x),
        Node::Panic { message } => lemma_elided_uses(*message, x),
        Node::CharFromCode(value) => lemma_elided_uses(*value, x),
        Node::StringFromChar(value) => lemma_elided_uses(*value, x),
        Node::Binary { left, right, .. } => {
            lemma_elided_uses(*left, x);
            lemma_elided_uses(*right, x);
        },
        Node::Concat { left, right } => {
            lemma_elided_uses(*left, x);
            lemma_elided_uses(*right, x);
        },
        Node::If { cond, then, els, .. } => {
            lemma_elided_uses(*cond, x);
            lemma_elided_uses(*then, x);
            lemma_elided_uses(*els, x);
        },
        Node::Match { scrutinee, arms, .. } => {
            lemma_elided_uses(*scrutinee, x);
            lemma_elided_uses_arms(arms, None, x);
        },
        Node::Try { body, arms, err_name, .. } => {
            lemma_elided_uses(*body, x);
            lemma_elided_uses_arms(arms, err_name, x);
        },
        _ => {},
    }
}

proof fn lemma_elided_uses_all(s: Seq<Node>, x: Seq<char>)
    requires
        all_scopes_apart(s),
    ensures
        uses_all(elided_all(s), x) == uses_all(s, x),
    decreases s,
{
    if s.len() > 0 {
        lemma_elided_uses_all(s.drop_last(), x);
        lemma_elided_uses(s.last(), x);
        assert(elided_all(s).drop_last() =~= elided_all(s.drop_last()));
    }
}

proof fn lemma_elided_uses_arm(arm: ArmNode, err: Option<Seq<char>>, x: Seq<char>)
    requires
        arm_scope_apart(arm),
        err matches Some(y) ==> arm_absent(arm, y),
    ensures
        uses_arm(elided_arm(arm, err), x) == uses_arm(arm, x),
    decreases arm,
{
    if let Some(guard) = arm.guard {
        lemma_elided_uses(*guard, x);
    }
    lemma_elided_uses(*arm.body, x);
    if let Some(y) = err {
        lemma_elided_absent(*arm.body, y);
        lemma_optimized_uses(elided(*arm.body), y, x);
    }
}

proof fn lemma_elided_uses_arms(s: Seq<ArmNode>, err: Option<Seq<char>>, x: Seq<char>)
    requires
        arm_scopes_apart(s),
        err matches Some(y) ==> arms_absent(s, y),
    ensures
        uses_arms(elided_arms(s, err), x) == uses_arms(s, x),
    decreases s,
{
    if s.len() > 0 {
        lemma_elided_uses_arms(s.drop_last(), err, x);
        lemma_elided_uses_arm(s.last(), err, x);
        assert(elided_arms(s, err).drop_last() =~= elided_arms(s.drop_last(), err));
    }
}

proof fn lemma_params_carried(c: Option<Node>, params: Seq<Bind>, e: Node, path: Seq<nat>)
    requires
        forall|i: int|
            0 <= i < params.len() && heap((#[trigger] params[i]).ty) ==> absent(e, params[i].name),
        is_kept(c, at(e, path)),
    ensures
        is_kept(c, at(optimize_params(params, e), path)),
        forall|x: Seq<char>| #[trigger]
            absent(e, x) ==> absent(optimize_params(params, e), x),
    decreases params.len(),
{
    if params.len() > 0 {
        let front = params.drop_last();
        assert forall|i: int| 0 <= i < front.len() && heap((#[trigger] front[i]).ty) implies absent(
            e,
            front[i].name,
        ) by {
            assert(front[i] == params[i]);
        }
        lemma_params_carried(c, front, e, path);
        let init = optimize_params(front, e);
        let last = params[params.len() - 1];
        if heap(last.ty) {
            assert(absent(e, last.name));
            lemma_carried(c, init, last.name, path);
            assert forall|x: Seq<char>| #[trigger] absent(e, x) implies absent(
                optimize_params(params, e),
                x,
            ) by {
                lemma_optimized_absent(init, last.name, x);
            }
        }
    }
}

proof fn lemma_elided_item(s: Seq<Node>, i: nat)
    ensures
        item(elided_all(s), i) == (match item(s, i) {
            Some(c) => Some(elided(c)),
            None => None,
        }),
        elided_all(s).len() == s.len(),
    decreases s.len(),
{
    if s.len() > 0 {
        lemma_elided_item(s.drop_last(), i);
        lemma_elided_item(s.drop_last(), 0);
    }
}

proof fn lemma_item_apart(s: Seq<Node>, i: nat)
    requires
        all_scopes_apart(s),
    ensures
        item(s, i) matches Some(c) ==> scopes_apart(c),
    decreases s.len(),
{
    if s.len() > 0 {
        lemma_item_apart(s.drop_last(), i);
    }
}

proof fn lemma_arm_part_apart(s: Seq<ArmNode>, i: nat)
    requires
        arm_scopes_apart(s),
    ensures
        arm_part(s, i) matches Some(c) ==> scopes_apart(c),
    decreases s.len(),
{
    if s.len() > 0 {
        lemma_arm_part_apart(s.drop_last(), i);
        assert(arm_scope_apart(s.last()));
    }
}

proof fn lemma_elided_arm_part(s: Seq<ArmNode>, err: Option<Seq<char>>, i: nat)
    ensures
        elided_arms(s, err).len() == s.len(),
        arm_part(elided_arms(s, err), i) == (match arm_part(s, i) {
            Some(c) => Some(
                if i % 2 == 1 && err is Some {
                    optimize(elided(c), err->0)
                } else {
                    elided(c)
                },
            ),
            None => None,
        }),
    decreases s.len(),
{
    if s.len() > 0 {
        lemma_elided_arm_part(s.drop_last(), err, i);
        let t = elided_arms(s, err);
        let k = (i / 2) as int;
        if k < s.len() - 1 {
            assert(t[k] == elided_arms(s.drop_last(), err)[k]);
            assert(s[k] == s.drop_last()[k]);
        } else if k == s.len() - 1 {
            assert(t[k] == elided_arm(s.last(), err));
        }
    }
}

/// The `let` of a heap value, or a lambda, stands at the same place once last uses
/// are moves.
proof fn lemma_kept(e: Node, path: Seq<nat>)
    requires
        scopes_apart(e),
        is_owner(at(e, path)),
    ensures
        is_kept(at(e, path), at(elided(e), path)),
    decreases path.len(), e, 1int,
{
    match e {
        Node::Release { next, .. } => {
            assert(at(e, path) == at(*next, path));
            lemma_kept(*next, path);
            assert(at(elided(e), path) == at(elided(*next), path));
        },
        Node::Retain { value } => {
            assert(at(e, path) == at(*value, path));
            lemma_kept(*value, path);
            assert(at(elided(e), path) == at(elided(*value), path));
        },
        _ => {
            assert(bare(e) == e);
            assert(bare(elided(e)) == elided(e));
            if path.len() == 0 {
                if e is Let {
                    lemma_kept_here(e);
                }
            } else {
                lemma_kept_part(e, path);
            }
        },
    }
}

proof fn lemma_kept_here(e: Node)
    requires
        scopes_apart(e),
        e matches Node::Let { value_ty, .. } && heap(value_ty),
    ensures
        is_kept(Some(e), Some(elided(e))),
{
    if let Node::Let { name, value_ty, value, next } = e {
        let inner = elided(*next);
        let left = optimize(inner, name);
        lemma_elided_absent(*next, name);
        moves_only_thin(inner, name);
        lemma_elided_kept(*next, name, true);
        lemma_thin_kept(inner, left, name, name, true);
        assert forall|w: Seq<nat>| #[trigger] is_way(left, w, false) implies is_way(
            *next,
            w,
            false,
        ) && kept_on(left, name, w) == kept_on(*next, name, w) by {
            lemma_elided_on(*next, name, w, false);
            lemma_thin_on(inner, left, name, name, w, false);
        }
        if passes(*next, name, 1) {
            assert forall|w: Seq<nat>| #[trigger] is_way(*next, w, false) implies is_way(
                left,
                w,
                false,
            ) && settles(tally(*next, name, w), tally(left, name, w)) by {
                bindings_are_settled(name, value_ty, *value, *next, w);
            }
        }
        if passes(*next, name, 0) && retains(*next, name) == 0 {
            lemma_elided_retains(*next, name);
            lemma_nothing_moves(inner, name);
            lemma_elided_uses(*next, name);
            lemma_elided_passes(*next, name, 0);
            assert forall|w: Seq<nat>| #[trigger] is_way(*next, w, false) implies is_way(
                left,
                w,
                false,
            ) && tally(left, name, w) == tally(*next, name, w) by {
                lemma_elided_ways(*next, name, w, false);
                ways_pass(*next, name, 0, w);
                ways_pass(inner, name, 0, w);
            }
        }
    }
}

/// What is not retained is not moved.
proof fn lemma_nothing_moves(e: Node, x: Seq<char>)
    requires
        retains(e, x) == 0,
    ensures
        optimize(e, x) == e,
    decreases e,
{
    match e {
        Node::Release { next, .. } => lemma_nothing_moves(*next, x),
        Node::Let { value, next, .. } => {
            lemma_nothing_moves(*next, x);
            lemma_moved(*value, x);
        },
        Node::If { then, els, .. } => {
            lemma_nothing_moves(*then, x);
            lemma_nothing_moves(*els, x);
        },
        Node::Match { arms, .. } => lemma_nothing_moves_arms(arms, x),
        _ => {},
    }
}

proof fn lemma_nothing_moves_arm(arm: ArmNode, x: Seq<char>)
    requires
        retains_arm(arm, x) == 0,
    ensures
        optimize_arm(arm, x) == arm,
    decreases arm,
{
    lemma_nothing_moves(*arm.body, x);
}

proof fn lemma_nothing_moves_arms(s: Seq<ArmNode>, x: Seq<char>)
    requires
        retains_arms(s, x) == 0,
    ensures
        optimize_arms(s, x) == s,
    decreases s,
{
    if s.len() > 0 {
        lemma_nothing_moves_arms(s.drop_last(), x);
        lemma_nothing_moves_arm(s.last(), x);
        assert(optimize_arms(s, x) =~= s);
    } else {
        assert(optimize_arms(s, x) =~= s);
    }
}

proof fn lemma_kept_part(e: Node, path: Seq<nat>)
    requires
        scopes_apart(e),
        path.len() > 0,
        !(e is Release) && !(e is Retain),
        is_owner(at(e, path)),
    ensures
        is_kept(at(e, path), at(elided(e), path)),
    decreases path.len(), e, 0int,
{
    let i = path[0];
    let rest = path.drop_first();
    let c = part(e, i)->0;
    assert(part(e, i) is Some);
    assert(bare(e) == e);
    assert(bare(elided(e)) == elided(e));
    lemma_part_apart(e, i);
    lemma_kept(c, rest);
    match e {
        Node::Let { name, value_ty, next, .. } => {
            if i == 1 && heap(value_ty) {
                lemma_elided_absent(*next, name);
                lemma_carried(at(c, rest), elided(*next), name, rest);
            }
        },
        Node::Fn { params, body, .. } => {
            assert forall|k: int|
                0 <= k < params.len() && heap((#[trigger] params[k]).ty) implies absent(
                elided(*body),
                params[k].name,
            ) by {
                lemma_elided_absent(*body, params[k].name);
            }
            lemma_params_carried(at(c, rest), params, elided(*body), rest);
        },
        Node::Call { args, .. } => {
            if i > 0 {
                lemma_elided_item(args, (i - 1) as nat);
            }
        },
        Node::Platform { args, .. } => lemma_elided_item(args, i),
        Node::Intrinsic { args, .. } => lemma_elided_item(args, i),
        Node::TailSelfCall { args, .. } => lemma_elided_item(args, i),
        Node::Array { elems, .. } => lemma_elided_item(elems, i),
        Node::EnumValue { payload, .. } => lemma_elided_item(payload, i),
        Node::RecordValue { fields, .. } => lemma_elided_item(fields, i),
        Node::Match { arms, .. } => {
            if i > 0 {
                lemma_elided_arm_part(arms, None, (i - 1) as nat);
            }
        },
        Node::Try { arms, err_name, .. } => {
            if i > 0 {
                lemma_elided_arm_part(arms, err_name, (i - 1) as nat);
                if let Some(x) = err_name {
                    lemma_arm_part_absent(arms, x, (i - 1) as nat);
                    lemma_elided_absent(c, x);
                    if (i - 1) % 2 == 1 {
                        lemma_carried(at(c, rest), elided(c), x, rest);
                    }
                }
            }
        },
        _ => {},
    }
}

pub proof fn lemma_part_apart(e: Node, i: nat)
    requires
        scopes_apart(e),
    ensures
        part(e, i) matches Some(c) ==> scopes_apart(c),
{
    match e {
        Node::Call { args, .. } => {
            if i > 0 {
                lemma_item_apart(args, (i - 1) as nat);
            }
        },
        Node::Platform { args, .. } => lemma_item_apart(args, i),
        Node::Intrinsic { args, .. } => lemma_item_apart(args, i),
        Node::TailSelfCall { args, .. } => lemma_item_apart(args, i),
        Node::Array { elems, .. } => lemma_item_apart(elems, i),
        Node::EnumValue { payload, .. } => lemma_item_apart(payload, i),
        Node::RecordValue { fields, .. } => lemma_item_apart(fields, i),
        Node::Match { arms, .. } => {
            if i > 0 {
                lemma_arm_part_apart(arms, (i - 1) as nat);
            }
        },
        Node::Try { arms, .. } => {
            if i > 0 {
                lemma_arm_part_apart(arms, (i - 1) as nat);
            }
        },
        _ => {},
    }
}

/// In a body in whose scopes no name is bound again, the `let` of a heap value, or a
/// lambda, stands at the same place once last uses are moves. There a value that its
/// scope released once on every path is released once or moved once, and never both,
/// on every way through the scope, and one that was neither released nor retained
/// still is not.
pub proof fn bindings_are_settled_in_place(params: Seq<Bind>, body: Node, path: Seq<nat>)
    requires
        scopes_apart(body),
        forall|i: int|
            0 <= i < params.len() && heap((#[trigger] params[i]).ty) ==> absent(
                body,
                params[i].name,
            ),
        is_owner(at(body, path)),
    ensures
        is_kept(at(body, path), at(elided_body(params, body), path)),
{
    lemma_kept(body, path);
    assert forall|k: int| 0 <= k < params.len() && heap((#[trigger] params[k]).ty) implies absent(
        elided(body),
        params[k].name,
    ) by {
        lemma_elided_absent(body, params[k].name);
    }
    lemma_params_carried(at(body, path), params, elided(body), path);
}

} // verus!
