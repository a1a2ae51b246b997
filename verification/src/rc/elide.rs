//! Move elision.
//!
//! A `retain %x` whose occurrence is the last use of `x` on its path can
//! transfer `x`'s own +1 instead: drop the retain and the path's `release x`.
//! This runs per binding region: at a heap `let` (over its continuation), at
//! function and lambda entry (heap parameters over the body), and at a `try`'s
//! caught-error binding (over each catch arm).
//!
//! The move fires only when (a) the continuation after the binding's `let` has
//! no further use of `x`, (b) the right-hand side uses `x` exactly once, as a
//! `retain` in unconditional position, and (c) neither the right-hand side nor
//! the continuation can unwind. Condition (c) keeps the unwind cleanup sound
//! without extra bookkeeping: after a move the binding's local still holds the
//! stale pointer (moves are not zeroed), so no cleanup may run past the move
//! point.

use vstd::prelude::*;

use crate::ir::{
    arm_nodes, capture_binds, nodes, param_binds, ArmNode, Bind, IrArm, IrCapture, IrExpr, IrParam,
    Node,
};
use crate::rc::insert::{can_unwind, may_throw};
use crate::strings::same;
use crate::types::{heap, is_heap};

verus! {

/// How many captures of `captures` are named `x`.
pub open spec fn captured(captures: Seq<Bind>, x: Seq<char>) -> nat
    decreases captures.len(),
{
    if captures.len() == 0 {
        0
    } else {
        captured(captures.drop_last(), x) + if captures.last().name == x {
            1nat
        } else {
            0
        }
    }
}

/// Occurrences of `x` in `e`: variable reads, plus one per closure that
/// captures it (the capture is read at allocation; the lambda body reads its
/// own binding, not this one).
pub open spec fn uses(e: Node, x: Seq<char>) -> nat
    decreases e,
{
    match e {
        Node::Var { name, .. } => if name == x {
            1
        } else {
            0
        },
        Node::Fn { captures, .. } => captured(captures, x),
        Node::Let { value, next, .. } => uses(*value, x) + uses(*next, x),
        Node::Release { next, .. } => uses(*next, x),
        Node::Retain { value } => uses(*value, x),
        Node::Throw { value } => uses(*value, x),
        Node::Question { value, .. } => uses(*value, x),
        Node::Call { callee, args, .. } => uses(*callee, x) + uses_all(args, x),
        Node::Platform { args, .. } => uses_all(args, x),
        Node::Intrinsic { args, .. } => uses_all(args, x),
        Node::TailSelfCall { args, .. } => uses_all(args, x),
        Node::Array { elems, .. } => uses_all(elems, x),
        Node::EnumValue { payload, .. } => uses_all(payload, x),
        Node::RecordValue { fields, .. } => uses_all(fields, x),
        Node::FieldAccess { target, .. } => uses(*target, x),
        Node::CharFromCode(value) => uses(*value, x),
        Node::StringFromChar(value) => uses(*value, x),
        Node::Binary { left, right, .. } => uses(*left, x) + uses(*right, x),
        Node::Concat { left, right } => uses(*left, x) + uses(*right, x),
        Node::If { cond, then, els, .. } => uses(*cond, x) + uses(*then, x) + uses(*els, x),
        Node::Match { scrutinee, arms, .. } => uses(*scrutinee, x) + uses_arms(arms, x),
        Node::Try { body, arms, .. } => uses(*body, x) + uses_arms(arms, x),
        Node::Panic { message } => uses(*message, x),
        Node::Int(_) | Node::Float(_) | Node::Bool(_) | Node::String(_) | Node::Char(_)
        | Node::Unit | Node::FunctionRef { .. } => 0,
    }
}

/// Occurrences of `x` in a list of expressions.
pub open spec fn uses_all(s: Seq<Node>, x: Seq<char>) -> nat
    decreases s,
{
    if s.len() == 0 {
        0
    } else {
        uses_all(s.drop_last(), x) + uses(s.last(), x)
    }
}

/// Occurrences of `x` in an arm.
pub open spec fn uses_arm(arm: ArmNode, x: Seq<char>) -> nat
    decreases arm,
{
    match arm.guard {
        Some(guard) => uses(*guard, x) + uses(*arm.body, x),
        None => uses(*arm.body, x),
    }
}

/// Occurrences of `x` in a list of arms.
pub open spec fn uses_arms(s: Seq<ArmNode>, x: Seq<char>) -> nat
    decreases s,
{
    if s.len() == 0 {
        0
    } else {
        uses_arms(s.drop_last(), x) + uses_arm(s.last(), x)
    }
}

/// `e` with the one `retain %x` in unconditional position replaced by a bare
/// read (the move), or nothing when no such retain stands there: a use under a
/// branch, a guard or a lambda does not move, because per-path ownership cannot
/// be decided locally.
pub open spec fn move_retain(e: Node, x: Seq<char>) -> Option<Node>
    decreases e,
{
    match e {
        Node::Retain { value } => match *value {
            Node::Var { name, .. } => if name == x {
                Some(*value)
            } else {
                None
            },
            _ => match move_retain(*value, x) {
                Some(v) => Some(Node::Retain { value: Box::new(v) }),
                None => None,
            },
        },
        Node::Let { name, value_ty, value, next } => match move_retain(*value, x) {
            Some(v) => Some(Node::Let { name, value_ty, value: Box::new(v), next }),
            None => match move_retain(*next, x) {
                Some(n) => Some(Node::Let { name, value_ty, value, next: Box::new(n) }),
                None => None,
            },
        },
        Node::Release { name, ty, next } => match move_retain(*next, x) {
            Some(n) => Some(Node::Release { name, ty, next: Box::new(n) }),
            None => None,
        },
        Node::Call { callee, args, ret } => match move_retain(*callee, x) {
            Some(c) => Some(Node::Call { callee: Box::new(c), args, ret }),
            None => match move_retain_all(args, x) {
                Some(a) => Some(Node::Call { callee, args: a, ret }),
                None => None,
            },
        },
        Node::Platform { name, args, ret, throws } => match move_retain_all(args, x) {
            Some(a) => Some(Node::Platform { name, args: a, ret, throws }),
            None => None,
        },
        Node::Intrinsic { name, args, ret } => match move_retain_all(args, x) {
            Some(a) => Some(Node::Intrinsic { name, args: a, ret }),
            None => None,
        },
        Node::TailSelfCall { args, ty } => match move_retain_all(args, x) {
            Some(a) => Some(Node::TailSelfCall { args: a, ty }),
            None => None,
        },
        Node::Array { elem_ty, elems } => match move_retain_all(elems, x) {
            Some(a) => Some(Node::Array { elem_ty, elems: a }),
            None => None,
        },
        Node::EnumValue { ty, variant, tag, payload } => match move_retain_all(payload, x) {
            Some(a) => Some(Node::EnumValue { ty, variant, tag, payload: a }),
            None => None,
        },
        Node::RecordValue { ty, fields } => match move_retain_all(fields, x) {
            Some(a) => Some(Node::RecordValue { ty, fields: a }),
            None => None,
        },
        Node::FieldAccess { target, index, field_ty } => match move_retain(*target, x) {
            Some(t) => Some(Node::FieldAccess { target: Box::new(t), index, field_ty }),
            None => None,
        },
        Node::Binary { op, ty, left, right } => match move_retain(*left, x) {
            Some(l) => Some(Node::Binary { op, ty, left: Box::new(l), right }),
            None => match move_retain(*right, x) {
                Some(r) => Some(Node::Binary { op, ty, left, right: Box::new(r) }),
                None => None,
            },
        },
        Node::Concat { left, right } => match move_retain(*left, x) {
            Some(l) => Some(Node::Concat { left: Box::new(l), right }),
            None => match move_retain(*right, x) {
                Some(r) => Some(Node::Concat { left, right: Box::new(r) }),
                None => None,
            },
        },
        Node::Throw { value } => match move_retain(*value, x) {
            Some(v) => Some(Node::Throw { value: Box::new(v) }),
            None => None,
        },
        Node::Question { value, mode, ty } => match move_retain(*value, x) {
            Some(v) => Some(Node::Question { value: Box::new(v), mode, ty }),
            None => None,
        },
        Node::CharFromCode(value) => match move_retain(*value, x) {
            Some(v) => Some(Node::CharFromCode(Box::new(v))),
            None => None,
        },
        Node::StringFromChar(value) => match move_retain(*value, x) {
            Some(v) => Some(Node::StringFromChar(Box::new(v))),
            None => None,
        },
        Node::Panic { message } => match move_retain(*message, x) {
            Some(m) => Some(Node::Panic { message: Box::new(m) }),
            None => None,
        },
        _ => None,
    }
}

/// [`move_retain`] in the first expression of a list that has the retain.
pub open spec fn move_retain_all(s: Seq<Node>, x: Seq<char>) -> Option<Seq<Node>>
    decreases s,
{
    if s.len() == 0 {
        None
    } else {
        match move_retain_all(s.drop_last(), x) {
            Some(t) => Some(t.push(s.last())),
            None => match move_retain(s.last(), x) {
                Some(e) => Some(s.drop_last().push(e)),
                None => None,
            },
        }
    }
}

/// `e` without `release x` at the tails of the region: the mirror of where the
/// insertion placed them (including the jump releases inside the catch arms of a
/// `try` that ends the region). Paths without one are left as they are.
pub open spec fn strip(e: Node, x: Seq<char>) -> Node
    decreases e,
{
    match e {
        Node::Release { name, ty, next } => if name == x {
            *next
        } else {
            Node::Release { name, ty, next: Box::new(strip(*next, x)) }
        },
        Node::Let { name, value_ty, value, next } => Node::Let {
            name,
            value_ty,
            value: Box::new(strip_value_jumps(*value, x)),
            next: Box::new(strip(*next, x)),
        },
        Node::If { cond, then, els, ty } => Node::If {
            cond,
            then: Box::new(strip(*then, x)),
            els: Box::new(strip(*els, x)),
            ty,
        },
        Node::Match { scrutinee, arms, ty } => Node::Match {
            scrutinee,
            arms: strip_arms(arms, x),
            ty,
        },
        _ => e,
    }
}

/// [`strip`] on the body of an arm.
pub open spec fn strip_arm(arm: ArmNode, x: Seq<char>) -> ArmNode
    decreases arm,
{
    ArmNode { pattern: arm.pattern, guard: arm.guard, body: Box::new(strip(*arm.body, x)) }
}

/// [`strip`] on the body of every arm.
pub open spec fn strip_arms(s: Seq<ArmNode>, x: Seq<char>) -> Seq<ArmNode>
    decreases s,
{
    if s.len() == 0 {
        Seq::empty()
    } else {
        strip_arms(s.drop_last(), x).push(strip_arm(s.last(), x))
    }
}

/// `e` without `release x` right before the jumps out of it: the mirror of where
/// the insertion placed them inside a catch arm.
pub open spec fn strip_jumps(e: Node, x: Seq<char>) -> Node
    decreases e,
{
    match e {
        Node::Release { name, ty, next } => if name == x {
            *next
        } else {
            Node::Release { name, ty, next: Box::new(strip_jumps(*next, x)) }
        },
        Node::Let { name, value_ty, value, next } => Node::Let {
            name,
            value_ty,
            value: Box::new(strip_value_jumps(*value, x)),
            next: Box::new(strip_jumps(*next, x)),
        },
        Node::If { cond, then, els, ty } => Node::If {
            cond,
            then: Box::new(strip_jumps(*then, x)),
            els: Box::new(strip_jumps(*els, x)),
            ty,
        },
        Node::Match { scrutinee, arms, ty } => Node::Match {
            scrutinee,
            arms: strip_arm_jumps(arms, x),
            ty,
        },
        Node::Try { body, arms, ty, err_name } => Node::Try {
            body,
            arms: strip_arm_jumps(arms, x),
            ty,
            err_name,
        },
        _ => e,
    }
}

/// [`strip_jumps`] on the catch arms of a `try` that is bound.
pub open spec fn strip_value_jumps(value: Node, x: Seq<char>) -> Node
    decreases value,
{
    match value {
        Node::Try { body, arms, ty, err_name } => Node::Try {
            body,
            arms: strip_arm_jumps(arms, x),
            ty,
            err_name,
        },
        _ => value,
    }
}

/// [`strip_jumps`] on the body of an arm.
pub open spec fn strip_arm_jump(arm: ArmNode, x: Seq<char>) -> ArmNode
    decreases arm,
{
    ArmNode { pattern: arm.pattern, guard: arm.guard, body: Box::new(strip_jumps(*arm.body, x)) }
}

/// [`strip_jumps`] on the body of every arm.
pub open spec fn strip_arm_jumps(s: Seq<ArmNode>, x: Seq<char>) -> Seq<ArmNode>
    decreases s,
{
    if s.len() == 0 {
        Seq::empty()
    } else {
        strip_arm_jumps(s.drop_last(), x).push(strip_arm_jump(s.last(), x))
    }
}

/// Walks the release spine of `x`'s scope region, turning the last use into a
/// move where the conditions of the module comment hold.
pub open spec fn optimize(e: Node, x: Seq<char>) -> Node
    decreases e,
{
    match e {
        // The release of `x` itself: the binding dies unused on this path.
        Node::Release { name, ty, next } => if name == x {
            e
        } else {
            Node::Release { name, ty, next: Box::new(optimize(*next, x)) }
        },
        Node::Let { name, value_ty, value, next } => if uses(*next, x) > 0 {
            Node::Let { name, value_ty, value, next: Box::new(optimize(*next, x)) }
        } else if uses(*value, x) == 1 && !can_unwind(*value) && !can_unwind(*next) {
            match move_retain(*value, x) {
                Some(moved) => Node::Let {
                    name,
                    value_ty,
                    value: Box::new(moved),
                    next: Box::new(strip(*next, x)),
                },
                None => e,
            }
        } else {
            e
        },
        Node::If { cond, then, els, ty } => Node::If {
            cond,
            then: Box::new(optimize(*then, x)),
            els: Box::new(optimize(*els, x)),
            ty,
        },
        Node::Match { scrutinee, arms, ty } => Node::Match {
            scrutinee,
            arms: optimize_arms(arms, x),
            ty,
        },
        _ => e,
    }
}

/// [`optimize`] on the body of an arm.
pub open spec fn optimize_arm(arm: ArmNode, x: Seq<char>) -> ArmNode
    decreases arm,
{
    ArmNode { pattern: arm.pattern, guard: arm.guard, body: Box::new(optimize(*arm.body, x)) }
}

/// [`optimize`] on the body of every arm.
pub open spec fn optimize_arms(s: Seq<ArmNode>, x: Seq<char>) -> Seq<ArmNode>
    decreases s,
{
    if s.len() == 0 {
        Seq::empty()
    } else {
        optimize_arms(s.drop_last(), x).push(optimize_arm(s.last(), x))
    }
}

/// Optimizes `body` for every heap-typed parameter, first to last.
pub open spec fn optimize_params(params: Seq<Bind>, body: Node) -> Node
    decreases params.len(),
{
    if params.len() == 0 {
        body
    } else {
        let init = optimize_params(params.drop_last(), body);
        if heap(params.last().ty) {
            optimize(init, params.last().name)
        } else {
            init
        }
    }
}

/// Applies the per-binding optimization everywhere, innermost regions first.
pub open spec fn elided(e: Node) -> Node
    decreases e,
{
    match e {
        Node::Let { name, value_ty, value, next } => {
            let n = elided(*next);
            Node::Let {
                name,
                value_ty,
                value: Box::new(elided(*value)),
                next: Box::new(
                    if heap(value_ty) {
                        optimize(n, name)
                    } else {
                        n
                    },
                ),
            }
        },
        Node::Fn { params, ret, throws, effects, captures, body } => Node::Fn {
            params,
            ret,
            throws,
            effects,
            captures,
            body: Box::new(optimize_params(params, elided(*body))),
        },
        Node::Try { body, arms, ty, err_name } => Node::Try {
            body: Box::new(elided(*body)),
            arms: elided_arms(arms, err_name),
            ty,
            err_name,
        },
        Node::Release { name, ty, next } => Node::Release {
            name,
            ty,
            next: Box::new(elided(*next)),
        },
        Node::Retain { value } => Node::Retain { value: Box::new(elided(*value)) },
        Node::If { cond, then, els, ty } => Node::If {
            cond: Box::new(elided(*cond)),
            then: Box::new(elided(*then)),
            els: Box::new(elided(*els)),
            ty,
        },
        Node::Match { scrutinee, arms, ty } => Node::Match {
            scrutinee: Box::new(elided(*scrutinee)),
            arms: elided_arms(arms, None),
            ty,
        },
        Node::Call { callee, args, ret } => Node::Call {
            callee: Box::new(elided(*callee)),
            args: elided_all(args),
            ret,
        },
        Node::Platform { name, args, ret, throws } => Node::Platform {
            name,
            args: elided_all(args),
            ret,
            throws,
        },
        Node::Intrinsic { name, args, ret } => Node::Intrinsic {
            name,
            args: elided_all(args),
            ret,
        },
        Node::TailSelfCall { args, ty } => Node::TailSelfCall { args: elided_all(args), ty },
        Node::Array { elem_ty, elems } => Node::Array { elem_ty, elems: elided_all(elems) },
        Node::EnumValue { ty, variant, tag, payload } => Node::EnumValue {
            ty,
            variant,
            tag,
            payload: elided_all(payload),
        },
        Node::RecordValue { ty, fields } => Node::RecordValue { ty, fields: elided_all(fields) },
        Node::FieldAccess { target, index, field_ty } => Node::FieldAccess {
            target: Box::new(elided(*target)),
            index,
            field_ty,
        },
        Node::Binary { op, ty, left, right } => Node::Binary {
            op,
            ty,
            left: Box::new(elided(*left)),
            right: Box::new(elided(*right)),
        },
        Node::Concat { left, right } => Node::Concat {
            left: Box::new(elided(*left)),
            right: Box::new(elided(*right)),
        },
        Node::Throw { value } => Node::Throw { value: Box::new(elided(*value)) },
        Node::Question { value, mode, ty } => Node::Question {
            value: Box::new(elided(*value)),
            mode,
            ty,
        },
        Node::Panic { message } => Node::Panic { message: Box::new(elided(*message)) },
        Node::CharFromCode(value) => Node::CharFromCode(Box::new(elided(*value))),
        Node::StringFromChar(value) => Node::StringFromChar(Box::new(elided(*value))),
        Node::Int(_) | Node::Float(_) | Node::Bool(_) | Node::String(_) | Node::Char(_)
        | Node::Unit | Node::Var { .. } | Node::FunctionRef { .. } => e,
    }
}

/// [`elided`] on every expression of a list.
pub open spec fn elided_all(s: Seq<Node>) -> Seq<Node>
    decreases s,
{
    if s.len() == 0 {
        Seq::empty()
    } else {
        elided_all(s.drop_last()).push(elided(s.last()))
    }
}

/// [`elided`] on an arm; `err` names the caught error that the arm owns.
pub open spec fn elided_arm(arm: ArmNode, err: Option<Seq<char>>) -> ArmNode
    decreases arm,
{
    ArmNode {
        pattern: arm.pattern,
        guard: match arm.guard {
            Some(guard) => Some(Box::new(elided(*guard))),
            None => None,
        },
        body: Box::new(
            match err {
                Some(x) => optimize(elided(*arm.body), x),
                None => elided(*arm.body),
            },
        ),
    }
}

/// [`elided`] on every arm of a list.
pub open spec fn elided_arms(s: Seq<ArmNode>, err: Option<Seq<char>>) -> Seq<ArmNode>
    decreases s,
{
    if s.len() == 0 {
        Seq::empty()
    } else {
        elided_arms(s.drop_last(), err).push(elided_arm(s.last(), err))
    }
}

/// A function body with its moves elided.
pub open spec fn elided_body(params: Seq<Bind>, body: Node) -> Node {
    optimize_params(params, elided(body))
}

/// A count of at most two.
pub open spec fn at_most_two(n: nat) -> nat {
    if n < 2 {
        n
    } else {
        2
    }
}

fn plus(a: u8, b: u8) -> (r: u8)
    requires
        a <= 2,
        b <= 2,
    ensures
        r == at_most_two((a + b) as nat),
        r <= 2,
{
    if a + b < 2 {
        a + b
    } else {
        2
    }
}

fn count_captures(captures: &Vec<IrCapture>, x: &str) -> (r: u8)
    ensures
        r == at_most_two(captured(capture_binds(captures@), x@)),
        r <= 2,
{
    let ghost all = capture_binds(captures@);
    let mut count: u8 = 0;
    let mut i: usize = 0;
    assert(all.take(0) =~= Seq::<Bind>::empty());
    while i < captures.len()
        invariant
            i <= captures.len(),
            all == capture_binds(captures@),
            count <= 2,
            count == at_most_two(captured(all.take(i as int), x@)),
        decreases captures.len() - i,
    {
        proof {
            assert(all.take(i + 1).drop_last() =~= all.take(i as int));
            assert(all.take(i + 1).last() == captures@[i as int]@);
        }
        if same(captures[i].name.as_str(), x) {
            count = plus(count, 1);
        }
        i += 1;
    }
    assert(all.take(all.len() as int) =~= all);
    count
}

fn count_all(exprs: &Vec<IrExpr>, x: &str) -> (r: u8)
    ensures
        r == at_most_two(uses_all(nodes(exprs@), x@)),
        r <= 2,
    decreases exprs@,
{
    let ghost all = nodes(exprs@);
    let mut count: u8 = 0;
    let mut i: usize = 0;
    assert(all.take(0) =~= Seq::<Node>::empty());
    while i < exprs.len()
        invariant
            i <= exprs.len(),
            all == nodes(exprs@),
            count <= 2,
            count == at_most_two(uses_all(all.take(i as int), x@)),
        decreases exprs.len() - i,
    {
        proof {
            assert(all.take(i + 1).drop_last() =~= all.take(i as int));
            assert(all.take(i + 1).last() == exprs@[i as int]@);
        }
        let c: u8 = count_uses(&exprs[i], x);
        count = plus(count, c);
        i += 1;
    }
    assert(all.take(all.len() as int) =~= all);
    count
}

fn count_arm(arm: &IrArm, x: &str) -> (r: u8)
    ensures
        r == at_most_two(uses_arm(arm@, x@)),
        r <= 2,
    decreases arm,
{
    let body: u8 = count_uses(&arm.body, x);
    match &arm.guard {
        Some(guard) => {
            let g: u8 = count_uses(guard, x);
            plus(g, body)
        },
        None => body,
    }
}

fn count_arms(arms: &Vec<IrArm>, x: &str) -> (r: u8)
    ensures
        r == at_most_two(uses_arms(arm_nodes(arms@), x@)),
        r <= 2,
    decreases arms@,
{
    let ghost all = arm_nodes(arms@);
    let mut count: u8 = 0;
    let mut i: usize = 0;
    assert(all.take(0) =~= Seq::<ArmNode>::empty());
    while i < arms.len()
        invariant
            i <= arms.len(),
            all == arm_nodes(arms@),
            count <= 2,
            count == at_most_two(uses_arms(all.take(i as int), x@)),
        decreases arms.len() - i,
    {
        proof {
            assert(all.take(i + 1).drop_last() =~= all.take(i as int));
            assert(all.take(i + 1).last() == arms@[i as int]@);
        }
        let c: u8 = count_arm(&arms[i], x);
        count = plus(count, c);
        i += 1;
    }
    assert(all.take(all.len() as int) =~= all);
    count
}

/// Occurrences of `x` in `e`, counted up to two.
pub fn count_uses(e: &IrExpr, x: &str) -> (r: u8)
    ensures
        r == at_most_two(uses(e@, x@)),
        r <= 2,
    decreases e,
{
    match e {
        IrExpr::Var { name, .. } => if same(name.as_str(), x) {
            1
        } else {
            0
        },
        IrExpr::Fn { captures, .. } => count_captures(captures, x),
        IrExpr::Let { value, next, .. } => plus(count_uses(value, x), count_uses(next, x)),
        IrExpr::Release { next, .. } => count_uses(next, x),
        IrExpr::Retain { value } => count_uses(value, x),
        IrExpr::Throw { value } => count_uses(value, x),
        IrExpr::Question { value, .. } => count_uses(value, x),
        IrExpr::Call { callee, args, .. } => plus(count_uses(callee, x), count_all(args, x)),
        IrExpr::Platform { args, .. } => count_all(args, x),
        IrExpr::Intrinsic { args, .. } => count_all(args, x),
        IrExpr::TailSelfCall { args, .. } => count_all(args, x),
        IrExpr::Array { elems, .. } => count_all(elems, x),
        IrExpr::EnumValue { payload, .. } => count_all(payload, x),
        IrExpr::RecordValue { fields, .. } => count_all(fields, x),
        IrExpr::FieldAccess { target, .. } => count_uses(target, x),
        IrExpr::CharFromCode(value) => count_uses(value, x),
        IrExpr::StringFromChar(value) => count_uses(value, x),
        IrExpr::Binary { left, right, .. } => plus(count_uses(left, x), count_uses(right, x)),
        IrExpr::Concat { left, right } => plus(count_uses(left, x), count_uses(right, x)),
        IrExpr::If { cond, then, els, .. } => plus(
            plus(count_uses(cond, x), count_uses(then, x)),
            count_uses(els, x),
        ),
        IrExpr::Match { scrutinee, arms, .. } => plus(
            count_uses(scrutinee, x),
            count_arms(arms, x),
        ),
        IrExpr::Try { body, arms, .. } => plus(count_uses(body, x), count_arms(arms, x)),
        IrExpr::Panic { message } => count_uses(message, x),
        IrExpr::Int(_) | IrExpr::Float(_) | IrExpr::Bool(_) | IrExpr::String(_) | IrExpr::Char(_)
        | IrExpr::Unit | IrExpr::FunctionRef { .. } => 0,
    }
}

/// Whether a move result is the one that `to` prescribes for `from`.
pub open spec fn moved_to(to: Option<Node>, from: Node, r: (bool, IrExpr)) -> bool {
    match to {
        Some(n) => r.0 && r.1@ == n,
        None => !r.0 && r.1@ == from,
    }
}

/// Whether a move result over a list is the one that `to` prescribes.
pub open spec fn moved_all_to(to: Option<Seq<Node>>, from: Seq<Node>, r: (bool, Vec<IrExpr>)) -> bool {
    match to {
        Some(n) => r.0 && nodes(r.1@) == n,
        None => !r.0 && nodes(r.1@) == from,
    }
}

fn try_move_all(exprs: Vec<IrExpr>, x: &str) -> (r: (bool, Vec<IrExpr>))
    ensures
        moved_all_to(move_retain_all(nodes(exprs@), x@), nodes(exprs@), r),
    decreases exprs@, 0nat,
{
    let ghost all = nodes(exprs@);
    let ghost items = exprs@;
    let mut out: Vec<IrExpr> = Vec::new();
    let mut done = false;
    assert(all.take(0) =~= Seq::<Node>::empty());
    assert(nodes(out@) =~= Seq::<Node>::empty());
    for e in iter: exprs
        invariant
            iter.seq() == items,
            items == exprs@,
            all == nodes(items),
            match move_retain_all(all.take(iter.index() as int), x@) {
                Some(t) => done && nodes(out@) == t,
                None => !done && nodes(out@) == all.take(iter.index() as int),
            },
    {
        let ghost i = iter.index() as int;
        let ghost out0 = out@;
        proof {
            assert(all.take(i + 1).drop_last() =~= all.take(i));
            assert(all.take(i + 1).last() == items[i]@);
            assert(all.take(i + 1) =~= all.take(i).push(items[i]@));
        }
        if done {
            out.push(e);
            assert(nodes(out@) =~= nodes(out0).push(e@));
        } else {
            let (moved, e) = try_move_retain(e, x);
            done = moved;
            out.push(e);
            assert(nodes(out@) =~= nodes(out0).push(e@));
        }
    }
    assert(all.take(all.len() as int) =~= all);
    (done, out)
}

/// Replaces the one `retain %x` in unconditional position with a bare read
/// (the move). Returns false, with `e` unchanged, where there is none.
pub fn try_move_retain(e: IrExpr, x: &str) -> (r: (bool, IrExpr))
    ensures
        moved_to(move_retain(e@, x@), e@, r),
    decreases e, 1nat,
{
    if matches!(
        e,
        IrExpr::Platform { .. }
            | IrExpr::Intrinsic { .. }
            | IrExpr::TailSelfCall { .. }
            | IrExpr::Array { .. }
            | IrExpr::EnumValue { .. }
            | IrExpr::RecordValue { .. }
            | IrExpr::Call { .. }
    ) {
        try_move_listed(e, x)
    } else if matches!(
        e,
        IrExpr::FieldAccess { .. }
            | IrExpr::Release { .. }
            | IrExpr::Throw { .. }
            | IrExpr::Question { .. }
            | IrExpr::CharFromCode(_)
            | IrExpr::StringFromChar(_)
            | IrExpr::Panic { .. }
    ) {
        try_move_single(e, x)
    } else if matches!(
        e,
        IrExpr::Let { .. } | IrExpr::Binary { .. } | IrExpr::Concat { .. } | IrExpr::Retain { .. }
    ) {
        try_move_pair(e, x)
    } else {
        (false, e)
    }
}

fn try_move_pair(e: IrExpr, x: &str) -> (r: (bool, IrExpr))
    requires
        e is Let || e is Binary || e is Concat || e is Retain,
    ensures
        moved_to(move_retain(e@, x@), e@, r),
    decreases e, 0nat,
{
    let ghost node = e@;
    match e {
        IrExpr::Retain { value } => {
            let v = *value;
            assert(node == (Node::Retain { value: Box::new(v@) }));
            let is_var = matches!(v, IrExpr::Var { .. });
            if is_var {
                let is_x = match &v {
                    IrExpr::Var { name, .. } => same(name.as_str(), x),
                    _ => false,
                };
                if is_x {
                    (true, v)
                } else {
                    (false, IrExpr::retain(v))
                }
            } else {
                let (moved, v) = try_move_retain(v, x);
                (moved, IrExpr::retain(v))
            }
        },
        IrExpr::Let { name, value_ty, value, next } => {
            let (moved, value) = try_move_retain(*value, x);
            if moved {
                (true, IrExpr::let_in(name, value_ty, value, *next))
            } else {
                let (moved, next) = try_move_retain(*next, x);
                (moved, IrExpr::let_in(name, value_ty, value, next))
            }
        },
        IrExpr::Binary { op, ty, left, right } => {
            let (moved, left) = try_move_retain(*left, x);
            if moved {
                (true, IrExpr::Binary { op, ty, left: Box::new(left), right })
            } else {
                let (moved, right) = try_move_retain(*right, x);
                (moved, IrExpr::Binary { op, ty, left: Box::new(left), right: Box::new(right) })
            }
        },
        IrExpr::Concat { left, right } => {
            let (moved, left) = try_move_retain(*left, x);
            if moved {
                (true, IrExpr::Concat { left: Box::new(left), right })
            } else {
                let (moved, right) = try_move_retain(*right, x);
                (moved, IrExpr::Concat { left: Box::new(left), right: Box::new(right) })
            }
        },
        other => (false, other),
    }
}

fn try_move_single(e: IrExpr, x: &str) -> (r: (bool, IrExpr))
    requires
        e is FieldAccess || e is Release || e is Throw || e is Question || e is CharFromCode
            || e is StringFromChar || e is Panic,
    ensures
        moved_to(move_retain(e@, x@), e@, r),
    decreases e, 0nat,
{
    match e {
        IrExpr::Release { name, ty, next } => {
            let (moved, next) = try_move_retain(*next, x);
            (moved, IrExpr::Release { name, ty, next: Box::new(next) })
        },
        IrExpr::FieldAccess { target, index, field_ty } => {
            let (moved, target) = try_move_retain(*target, x);
            (moved, IrExpr::FieldAccess { target: Box::new(target), index, field_ty })
        },
        IrExpr::Throw { value } => {
            let (moved, value) = try_move_retain(*value, x);
            (moved, IrExpr::Throw { value: Box::new(value) })
        },
        IrExpr::Question { value, mode, ty } => {
            let (moved, value) = try_move_retain(*value, x);
            (moved, IrExpr::Question { value: Box::new(value), mode, ty })
        },
        IrExpr::CharFromCode(value) => {
            let (moved, value) = try_move_retain(*value, x);
            (moved, IrExpr::CharFromCode(Box::new(value)))
        },
        IrExpr::StringFromChar(value) => {
            let (moved, value) = try_move_retain(*value, x);
            (moved, IrExpr::StringFromChar(Box::new(value)))
        },
        IrExpr::Panic { message } => {
            let (moved, message) = try_move_retain(*message, x);
            (moved, IrExpr::Panic { message: Box::new(message) })
        },
        other => (false, other),
    }
}

fn try_move_listed(e: IrExpr, x: &str) -> (r: (bool, IrExpr))
    requires
        e is Platform || e is Intrinsic || e is TailSelfCall || e is Array || e is EnumValue
            || e is RecordValue || e is Call,
    ensures
        moved_to(move_retain(e@, x@), e@, r),
    decreases e, 0nat,
{
    match e {
        IrExpr::Call { callee, args, ret } => {
            let (moved, callee) = try_move_retain(*callee, x);
            if moved {
                (true, IrExpr::Call { callee: Box::new(callee), args, ret })
            } else {
                let (moved, args) = try_move_all(args, x);
                (moved, IrExpr::Call { callee: Box::new(callee), args, ret })
            }
        },
        IrExpr::Platform { name, args, ret, throws } => {
            let (moved, args) = try_move_all(args, x);
            (moved, IrExpr::Platform { name, args, ret, throws })
        },
        IrExpr::Intrinsic { name, args, ret } => {
            let (moved, args) = try_move_all(args, x);
            (moved, IrExpr::Intrinsic { name, args, ret })
        },
        IrExpr::TailSelfCall { args, ty } => {
            let (moved, args) = try_move_all(args, x);
            (moved, IrExpr::TailSelfCall { args, ty })
        },
        IrExpr::Array { elem_ty, elems } => {
            let (moved, elems) = try_move_all(elems, x);
            (moved, IrExpr::Array { elem_ty, elems })
        },
        IrExpr::EnumValue { ty, variant, tag, payload } => {
            let (moved, payload) = try_move_all(payload, x);
            (moved, IrExpr::EnumValue { ty, variant, tag, payload })
        },
        IrExpr::RecordValue { ty, fields } => {
            let (moved, fields) = try_move_all(fields, x);
            (moved, IrExpr::RecordValue { ty, fields })
        },
        other => (false, other),
    }
}

fn strip_release_arm(arm: IrArm, x: &str) -> (r: IrArm)
    ensures
        r@ == strip_arm(arm@, x@),
    decreases arm,
{
    let body = strip_release(arm.body, x);
    IrArm { pattern: arm.pattern, guard: arm.guard, body }
}

fn strip_release_arms(arms: Vec<IrArm>, x: &str) -> (r: Vec<IrArm>)
    ensures
        arm_nodes(r@) == strip_arms(arm_nodes(arms@), x@),
    decreases arms@,
{
    let ghost all = arm_nodes(arms@);
    let ghost items = arms@;
    let mut out: Vec<IrArm> = Vec::new();
    assert(arm_nodes(out@) =~= strip_arms(all.take(0), x@));
    for arm in iter: arms
        invariant
            iter.seq() == items,
            items == arms@,
            all == arm_nodes(items),
            arm_nodes(out@) == strip_arms(all.take(iter.index() as int), x@),
    {
        let ghost i = iter.index() as int;
        let ghost out0 = out@;
        proof {
            assert(all.take(i + 1).drop_last() =~= all.take(i));
            assert(all.take(i + 1).last() == items[i]@);
        }
        let arm = strip_release_arm(arm, x);
        out.push(arm);
        assert(arm_nodes(out@) =~= arm_nodes(out0).push(arm@));
    }
    assert(all.take(all.len() as int) =~= all);
    out
}

fn strip_jump_arm(arm: IrArm, x: &str) -> (r: IrArm)
    ensures
        r@ == strip_arm_jump(arm@, x@),
    decreases arm,
{
    let body = strip_jump_releases(arm.body, x);
    IrArm { pattern: arm.pattern, guard: arm.guard, body }
}

fn strip_jump_arms(arms: Vec<IrArm>, x: &str) -> (r: Vec<IrArm>)
    ensures
        arm_nodes(r@) == strip_arm_jumps(arm_nodes(arms@), x@),
    decreases arms@,
{
    let ghost all = arm_nodes(arms@);
    let ghost items = arms@;
    let mut out: Vec<IrArm> = Vec::new();
    assert(arm_nodes(out@) =~= strip_arm_jumps(all.take(0), x@));
    for arm in iter: arms
        invariant
            iter.seq() == items,
            items == arms@,
            all == arm_nodes(items),
            arm_nodes(out@) == strip_arm_jumps(all.take(iter.index() as int), x@),
    {
        let ghost i = iter.index() as int;
        let ghost out0 = out@;
        proof {
            assert(all.take(i + 1).drop_last() =~= all.take(i));
            assert(all.take(i + 1).last() == items[i]@);
        }
        let arm = strip_jump_arm(arm, x);
        out.push(arm);
        assert(arm_nodes(out@) =~= arm_nodes(out0).push(arm@));
    }
    assert(all.take(all.len() as int) =~= all);
    out
}

fn strip_value_releases(value: IrExpr, x: &str) -> (r: IrExpr)
    ensures
        r@ == strip_value_jumps(value@, x@),
    decreases value,
{
    match value {
        IrExpr::Try { body, arms, ty, err_name } => {
            let arms = strip_jump_arms(arms, x);
            IrExpr::Try { body, arms, ty, err_name }
        },
        other => other,
    }
}

/// Removes `release x` right before every jump out of a catch arm.
pub fn strip_jump_releases(e: IrExpr, x: &str) -> (r: IrExpr)
    ensures
        r@ == strip_jumps(e@, x@),
    decreases e,
{
    match e {
        IrExpr::Release { name, ty, next } => if same(name.as_str(), x) {
            *next
        } else {
            let next = strip_jump_releases(*next, x);
            IrExpr::Release { name, ty, next: Box::new(next) }
        },
        IrExpr::Let { name, value_ty, value, next } => {
            let v = strip_value_releases(*value, x);
            let next = strip_jump_releases(*next, x);
            IrExpr::let_in(name, value_ty, v, next)
        },
        IrExpr::If { cond, then, els, ty } => {
            let then = strip_jump_releases(*then, x);
            let els = strip_jump_releases(*els, x);
            IrExpr::If { cond, then: Box::new(then), els: Box::new(els), ty }
        },
        IrExpr::Match { scrutinee, arms, ty } => {
            let arms = strip_jump_arms(arms, x);
            IrExpr::Match { scrutinee, arms, ty }
        },
        IrExpr::Try { body, arms, ty, err_name } => {
            let arms = strip_jump_arms(arms, x);
            IrExpr::Try { body, arms, ty, err_name }
        },
        other => other,
    }
}

/// Removes `release x` at every tail of the region.
pub fn strip_release(e: IrExpr, x: &str) -> (r: IrExpr)
    ensures
        r@ == strip(e@, x@),
    decreases e,
{
    match e {
        IrExpr::Release { name, ty, next } => if same(name.as_str(), x) {
            *next
        } else {
            let next = strip_release(*next, x);
            IrExpr::Release { name, ty, next: Box::new(next) }
        },
        IrExpr::Let { name, value_ty, value, next } => {
            // A leaf-wrapped `try` keeps x's jump releases inside its arms.
            let v = strip_value_releases(*value, x);
            let next = strip_release(*next, x);
            IrExpr::let_in(name, value_ty, v, next)
        },
        IrExpr::If { cond, then, els, ty } => {
            let then = strip_release(*then, x);
            let els = strip_release(*els, x);
            IrExpr::If { cond, then: Box::new(then), els: Box::new(els), ty }
        },
        IrExpr::Match { scrutinee, arms, ty } => {
            let arms = strip_release_arms(arms, x);
            IrExpr::Match { scrutinee, arms, ty }
        },
        other => other,
    }
}

fn opt_arm(arm: IrArm, x: &str) -> (r: IrArm)
    ensures
        r@ == optimize_arm(arm@, x@),
    decreases arm,
{
    let body = opt_last_use(arm.body, x);
    IrArm { pattern: arm.pattern, guard: arm.guard, body }
}

fn opt_arms(arms: Vec<IrArm>, x: &str) -> (r: Vec<IrArm>)
    ensures
        arm_nodes(r@) == optimize_arms(arm_nodes(arms@), x@),
    decreases arms@,
{
    let ghost all = arm_nodes(arms@);
    let ghost items = arms@;
    let mut out: Vec<IrArm> = Vec::new();
    assert(arm_nodes(out@) =~= optimize_arms(all.take(0), x@));
    for arm in iter: arms
        invariant
            iter.seq() == items,
            items == arms@,
            all == arm_nodes(items),
            arm_nodes(out@) == optimize_arms(all.take(iter.index() as int), x@),
    {
        let ghost i = iter.index() as int;
        let ghost out0 = out@;
        proof {
            assert(all.take(i + 1).drop_last() =~= all.take(i));
            assert(all.take(i + 1).last() == items[i]@);
        }
        let arm = opt_arm(arm, x);
        out.push(arm);
        assert(arm_nodes(out@) =~= arm_nodes(out0).push(arm@));
    }
    assert(all.take(all.len() as int) =~= all);
    out
}

/// Turns the last use of `x` into a move where that is sound.
pub fn opt_last_use(e: IrExpr, x: &str) -> (r: IrExpr)
    ensures
        r@ == optimize(e@, x@),
    decreases e,
{
    match e {
        IrExpr::Release { name, ty, next } => if same(name.as_str(), x) {
            IrExpr::Release { name, ty, next }
        } else {
            let next = opt_last_use(*next, x);
            IrExpr::Release { name, ty, next: Box::new(next) }
        },
        IrExpr::Let { name, value_ty, value, next } => {
            if count_uses(&next, x) > 0 {
                let next = opt_last_use(*next, x);
                IrExpr::Let { name, value_ty, value, next: Box::new(next) }
            } else if count_uses(&value, x) == 1 && !may_throw(&value) && !may_throw(&next) {
                let (moved, value) = try_move_retain(*value, x);
                if moved {
                    let next = strip_release(*next, x);
                    IrExpr::let_in(name, value_ty, value, next)
                } else {
                    IrExpr::let_in(name, value_ty, value, *next)
                }
            } else {
                IrExpr::Let { name, value_ty, value, next }
            }
        },
        IrExpr::If { cond, then, els, ty } => {
            let then = opt_last_use(*then, x);
            let els = opt_last_use(*els, x);
            IrExpr::If { cond, then: Box::new(then), els: Box::new(els), ty }
        },
        IrExpr::Match { scrutinee, arms, ty } => {
            let arms = opt_arms(arms, x);
            IrExpr::Match { scrutinee, arms, ty }
        },
        other => other,
    }
}

fn opt_params(params: &Vec<IrParam>, body: IrExpr) -> (r: IrExpr)
    ensures
        r@ == optimize_params(param_binds(params@), body@),
{
    let ghost all = param_binds(params@);
    let mut out = body;
    let mut i: usize = 0;
    assert(all.take(0) =~= Seq::<Bind>::empty());
    while i < params.len()
        invariant
            i <= params.len(),
            all == param_binds(params@),
            out@ == optimize_params(all.take(i as int), body@),
        decreases params.len() - i,
    {
        proof {
            assert(all.take(i + 1).drop_last() =~= all.take(i as int));
            assert(all.take(i + 1).last() == params@[i as int]@);
        }
        if is_heap(&params[i].ty) {
            out = opt_last_use(out, params[i].name.as_str());
        }
        i += 1;
    }
    assert(all.take(all.len() as int) =~= all);
    out
}

/// A function body with its moves elided.
pub fn elide_moves_fn(params: &Vec<IrParam>, body: IrExpr) -> (r: IrExpr)
    ensures
        r@ == elided_body(param_binds(params@), body@),
{
    let body = elide(body);
    opt_params(params, body)
}

fn elide_all(exprs: Vec<IrExpr>) -> (r: Vec<IrExpr>)
    ensures
        nodes(r@) == elided_all(nodes(exprs@)),
    decreases exprs@,
{
    let ghost all = nodes(exprs@);
    let ghost items = exprs@;
    let mut out: Vec<IrExpr> = Vec::new();
    assert(nodes(out@) =~= elided_all(all.take(0)));
    for e in iter: exprs
        invariant
            iter.seq() == items,
            items == exprs@,
            all == nodes(items),
            nodes(out@) == elided_all(all.take(iter.index() as int)),
    {
        let ghost i = iter.index() as int;
        let ghost out0 = out@;
        proof {
            assert(all.take(i + 1).drop_last() =~= all.take(i));
            assert(all.take(i + 1).last() == items[i]@);
        }
        let e = elide(e);
        out.push(e);
        assert(nodes(out@) =~= nodes(out0).push(e@));
    }
    assert(all.take(all.len() as int) =~= all);
    out
}

fn elide_arm(arm: IrArm, err: &Option<String>) -> (r: IrArm)
    ensures
        r@ == elided_arm(arm@, crate::ir::opt_text(*err)),
    decreases arm,
{
    let body = elide(arm.body);
    let body = match err {
        Some(x) => opt_last_use(body, x.as_str()),
        None => body,
    };
    let guard = match arm.guard {
        Some(guard) => Some(elide(guard)),
        None => None,
    };
    IrArm { pattern: arm.pattern, guard, body }
}

fn elide_arms(arms: Vec<IrArm>, err: &Option<String>) -> (r: Vec<IrArm>)
    ensures
        arm_nodes(r@) == elided_arms(arm_nodes(arms@), crate::ir::opt_text(*err)),
    decreases arms@,
{
    let ghost all = arm_nodes(arms@);
    let ghost items = arms@;
    let ghost x = crate::ir::opt_text(*err);
    let mut out: Vec<IrArm> = Vec::new();
    assert(arm_nodes(out@) =~= elided_arms(all.take(0), x));
    for arm in iter: arms
        invariant
            iter.seq() == items,
            items == arms@,
            all == arm_nodes(items),
            x == crate::ir::opt_text(*err),
            arm_nodes(out@) == elided_arms(all.take(iter.index() as int), x),
    {
        let ghost i = iter.index() as int;
        let ghost out0 = out@;
        proof {
            assert(all.take(i + 1).drop_last() =~= all.take(i));
            assert(all.take(i + 1).last() == items[i]@);
        }
        let arm = elide_arm(arm, err);
        out.push(arm);
        assert(arm_nodes(out@) =~= arm_nodes(out0).push(arm@));
    }
    assert(all.take(all.len() as int) =~= all);
    out
}

/// Applies the per-binding optimization everywhere, innermost regions first.
pub fn elide(e: IrExpr) -> (r: IrExpr)
    ensures
        r@ == elided(e@),
    decreases e,
{
    match e {
        IrExpr::Let { name, value_ty, value, next } => {
            let value = elide(*value);
            let next = elide(*next);
            let next = if is_heap(&value_ty) {
                opt_last_use(next, name.as_str())
            } else {
                next
            };
            IrExpr::let_in(name, value_ty, value, next)
        },
        IrExpr::Fn { params, ret, throws, effects, captures, body } => {
            let body = elide(*body);
            let body = opt_params(&params, body);
            IrExpr::Fn { params, ret, throws, effects, captures, body: Box::new(body) }
        },
        IrExpr::Try { body, arms, ty, err_name } => {
            let arms = elide_arms(arms, &err_name);
            let body = elide(*body);
            IrExpr::Try { body: Box::new(body), arms, ty, err_name }
        },
        IrExpr::Release { name, ty, next } => IrExpr::Release {
            name,
            ty,
            next: Box::new(elide(*next)),
        },
        IrExpr::Retain { value } => IrExpr::Retain { value: Box::new(elide(*value)) },
        IrExpr::If { cond, then, els, ty } => IrExpr::If {
            cond: Box::new(elide(*cond)),
            then: Box::new(elide(*then)),
            els: Box::new(elide(*els)),
            ty,
        },
        IrExpr::Match { scrutinee, arms, ty } => {
            let arms = elide_arms(arms, &None);
            IrExpr::Match { scrutinee: Box::new(elide(*scrutinee)), arms, ty }
        },
        IrExpr::Call { callee, args, ret } => IrExpr::Call {
            callee: Box::new(elide(*callee)),
            args: elide_all(args),
            ret,
        },
        IrExpr::Platform { name, args, ret, throws } => IrExpr::Platform {
            name,
            args: elide_all(args),
            ret,
            throws,
        },
        IrExpr::Intrinsic { name, args, ret } => IrExpr::Intrinsic {
            name,
            args: elide_all(args),
            ret,
        },
        IrExpr::TailSelfCall { args, ty } => IrExpr::TailSelfCall { args: elide_all(args), ty },
        IrExpr::Array { elem_ty, elems } => IrExpr::Array { elem_ty, elems: elide_all(elems) },
        IrExpr::EnumValue { ty, variant, tag, payload } => IrExpr::EnumValue {
            ty,
            variant,
            tag,
            payload: elide_all(payload),
        },
        IrExpr::RecordValue { ty, fields } => IrExpr::RecordValue {
            ty,
            fields: elide_all(fields),
        },
        IrExpr::FieldAccess { target, index, field_ty } => IrExpr::FieldAccess {
            target: Box::new(elide(*target)),
            index,
            field_ty,
        },
        IrExpr::Binary { op, ty, left, right } => IrExpr::Binary {
            op,
            ty,
            left: Box::new(elide(*left)),
            right: Box::new(elide(*right)),
        },
        IrExpr::Concat { left, right } => IrExpr::Concat {
            left: Box::new(elide(*left)),
            right: Box::new(elide(*right)),
        },
        IrExpr::Throw { value } => IrExpr::Throw { value: Box::new(elide(*value)) },
        IrExpr::Question { value, mode, ty } => IrExpr::Question {
            value: Box::new(elide(*value)),
            mode,
            ty,
        },
        IrExpr::Panic { message } => IrExpr::Panic { message: Box::new(elide(*message)) },
        IrExpr::CharFromCode(value) => IrExpr::CharFromCode(Box::new(elide(*value))),
        IrExpr::StringFromChar(value) => IrExpr::StringFromChar(Box::new(elide(*value))),
        other => other,
    }
}

} // verus!
