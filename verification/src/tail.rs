//! Self tail calls become jumps.
//!
//! A direct call of the function that it stands in, in tail position, replaces
//! the function's arguments and starts its body again. The `try` body is no tail
//! position, since its errors are still to be caught; a catch arm is one.

use vstd::prelude::*;

use crate::ir::{
    arm_nodes, node_ty, nodes, ArmNode, FnNode, IrArm, IrExpr, IrFunction, IrProgram, Node, Pat,
};
use crate::meaning::{
    bind_all, choose_arm, done, eval, take_arm, try_arm, Choice, Env, Event, Model, Outcome, Value,
};
use crate::strings::same;

verus! {

/// Whether an expression refers to the function called `me`.
pub open spec fn refers_to(e: Node, me: Seq<char>) -> bool {
    match e {
        Node::FunctionRef { name, .. } => name == me,
        _ => false,
    }
}

/// The expression with every direct call of `me` in tail position a jump.
pub open spec fn jumped(e: Node, me: Seq<char>) -> Node
    decreases e,
{
    match e {
        Node::Call { callee, args, ret } => if refers_to(*callee, me) {
            Node::TailSelfCall { args, ty: ret }
        } else {
            e
        },
        Node::Let { name, value_ty, value, next } => Node::Let {
            name,
            value_ty,
            value,
            next: Box::new(jumped(*next, me)),
        },
        Node::Release { name, ty, next } => Node::Release {
            name,
            ty,
            next: Box::new(jumped(*next, me)),
        },
        Node::If { cond, then, els, ty } => Node::If {
            cond,
            then: Box::new(jumped(*then, me)),
            els: Box::new(jumped(*els, me)),
            ty,
        },
        Node::Match { scrutinee, arms, ty } => Node::Match {
            scrutinee,
            arms: jumped_arms(arms, me),
            ty,
        },
        Node::Try { body, arms, ty, err_name } => Node::Try {
            body,
            arms: jumped_arms(arms, me),
            ty,
            err_name,
        },
        _ => e,
    }
}

/// The arm with every direct call of `me` in tail position a jump.
pub open spec fn jumped_arm(arm: ArmNode, me: Seq<char>) -> ArmNode
    decreases arm,
{
    ArmNode { body: Box::new(jumped(*arm.body, me)), ..arm }
}

/// Arms with every direct call of `me` in tail position a jump.
pub open spec fn jumped_arms(s: Seq<ArmNode>, me: Seq<char>) -> Seq<ArmNode>
    decreases s,
{
    if s.len() == 0 {
        Seq::empty()
    } else {
        jumped_arms(s.drop_last(), me).push(jumped_arm(s.last(), me))
    }
}

/// The function with its self tail calls as jumps.
pub open spec fn with_jumps(f: FnNode) -> FnNode {
    FnNode { body: jumped(f.body, f.name), ..f }
}

/// Whether a direct call of `me` stands in tail position.
pub open spec fn has_tail_call(e: Node, me: Seq<char>) -> bool
    decreases e,
{
    match e {
        Node::Call { callee, .. } => refers_to(*callee, me),
        Node::Let { next, .. } => has_tail_call(*next, me),
        Node::Release { next, .. } => has_tail_call(*next, me),
        Node::If { then, els, .. } => has_tail_call(*then, me) || has_tail_call(*els, me),
        Node::Match { arms, .. } => arms_have_tail_call(arms, me),
        Node::Try { arms, .. } => arms_have_tail_call(arms, me),
        _ => false,
    }
}

/// Whether a direct call of `me` stands in tail position of an arm.
pub open spec fn arm_has_tail_call(arm: ArmNode, me: Seq<char>) -> bool
    decreases arm,
{
    has_tail_call(*arm.body, me)
}

/// Whether a direct call of `me` stands in tail position of one of some arms.
pub open spec fn arms_have_tail_call(s: Seq<ArmNode>, me: Seq<char>) -> bool
    decreases s,
{
    s.len() > 0 && (arms_have_tail_call(s.drop_last(), me) || arm_has_tail_call(s.last(), me))
}

/// No direct self call is left in tail position.
pub proof fn no_tail_call_is_left(e: Node, me: Seq<char>)
    ensures
        !has_tail_call(jumped(e, me), me),
    decreases e,
{
    match e {
        Node::Let { next, .. } => no_tail_call_is_left(*next, me),
        Node::Release { next, .. } => no_tail_call_is_left(*next, me),
        Node::If { then, els, .. } => {
            no_tail_call_is_left(*then, me);
            no_tail_call_is_left(*els, me);
        },
        Node::Match { arms, .. } => no_tail_call_is_left_in_arms(arms, me),
        Node::Try { arms, .. } => no_tail_call_is_left_in_arms(arms, me),
        _ => {},
    }
}

proof fn no_tail_call_is_left_in_arm(arm: ArmNode, me: Seq<char>)
    ensures
        !arm_has_tail_call(jumped_arm(arm, me), me),
    decreases arm,
{
    no_tail_call_is_left(*arm.body, me);
}

proof fn no_tail_call_is_left_in_arms(s: Seq<ArmNode>, me: Seq<char>)
    ensures
        !arms_have_tail_call(jumped_arms(s, me), me),
    decreases s,
{
    if s.len() > 0 {
        no_tail_call_is_left_in_arms(s.drop_last(), me);
        no_tail_call_is_left_in_arm(s.last(), me);
        let rest = jumped_arms(s.drop_last(), me);
        assert(jumped_arms(s, me).drop_last() =~= rest);
    }
}

/// A jump has the type of the call that it stands for, so the type of every
/// expression is kept.
pub proof fn jumps_keep_the_type(e: Node, me: Seq<char>)
    ensures
        node_ty(jumped(e, me)) == node_ty(e),
    decreases e,
{
    match e {
        Node::Let { next, .. } => jumps_keep_the_type(*next, me),
        Node::Release { next, .. } => jumps_keep_the_type(*next, me),
        _ => {},
    }
}

/// An expression without a direct self call in tail position is unchanged.
pub proof fn only_tail_calls_change(e: Node, me: Seq<char>)
    requires
        !has_tail_call(e, me),
    ensures
        jumped(e, me) == e,
    decreases e,
{
    match e {
        Node::Let { next, .. } => only_tail_calls_change(*next, me),
        Node::Release { next, .. } => only_tail_calls_change(*next, me),
        Node::If { then, els, .. } => {
            only_tail_calls_change(*then, me);
            only_tail_calls_change(*els, me);
        },
        Node::Match { arms, .. } => only_tail_calls_change_in_arms(arms, me),
        Node::Try { arms, .. } => only_tail_calls_change_in_arms(arms, me),
        _ => {},
    }
}

proof fn only_tail_calls_change_in_arm(arm: ArmNode, me: Seq<char>)
    requires
        !arm_has_tail_call(arm, me),
    ensures
        jumped_arm(arm, me) == arm,
    decreases arm,
{
    only_tail_calls_change(*arm.body, me);
}

proof fn only_tail_calls_change_in_arms(s: Seq<ArmNode>, me: Seq<char>)
    requires
        !arms_have_tail_call(s, me),
    ensures
        jumped_arms(s, me) == s,
    decreases s,
{
    if s.len() > 0 {
        only_tail_calls_change_in_arms(s.drop_last(), me);
        only_tail_calls_change_in_arm(s.last(), me);
        assert(s.drop_last().push(s.last()) =~= s);
    } else {
        assert(s =~= Seq::empty());
    }
}

fn is_ref_to(e: &IrExpr, me: &str) -> (r: bool)
    ensures
        r == refers_to(e@, me@),
{
    match e {
        IrExpr::FunctionRef { name, .. } => same(name.as_str(), me),
        _ => false,
    }
}

fn jump(e: IrExpr, me: &str) -> (r: IrExpr)
    ensures
        r@ == jumped(e@, me@),
    decreases e,
{
    match e {
        IrExpr::Call { callee, args, ret } => {
            if is_ref_to(&callee, me) {
                let r = IrExpr::TailSelfCall { args, ty: ret };
                assert(r@ == (Node::TailSelfCall { args: nodes(args@), ty: ret@ }));
                r
            } else {
                IrExpr::Call { callee, args, ret }
            }
        },
        IrExpr::Let { name, value_ty, value, next } => IrExpr::Let {
            name,
            value_ty,
            value,
            next: Box::new(jump(*next, me)),
        },
        IrExpr::Release { name, ty, next } => IrExpr::Release {
            name,
            ty,
            next: Box::new(jump(*next, me)),
        },
        IrExpr::If { cond, then, els, ty } => IrExpr::If {
            cond,
            then: Box::new(jump(*then, me)),
            els: Box::new(jump(*els, me)),
            ty,
        },
        IrExpr::Match { scrutinee, arms, ty } => {
            let inner = jump_arms(arms, me);
            IrExpr::match_of(*scrutinee, inner, ty)
        },
        IrExpr::Try { body, arms, ty, err_name } => {
            let inner = jump_arms(arms, me);
            let r = IrExpr::Try { body, arms: inner, ty, err_name };
            assert(r@->Try_arms == arm_nodes(inner@));
            r
        },
        other => other,
    }
}

fn jump_arm(arm: IrArm, me: &str) -> (r: IrArm)
    ensures
        r@ == jumped_arm(arm@, me@),
    decreases arm,
{
    IrArm { pattern: arm.pattern, guard: arm.guard, body: jump(arm.body, me) }
}

fn jump_arms(arms: Vec<IrArm>, me: &str) -> (r: Vec<IrArm>)
    ensures
        arm_nodes(r@) == jumped_arms(arm_nodes(arms@), me@),
    decreases arms@,
{
    let ghost source = arms@;
    let ghost all = arm_nodes(arms@);
    let mut out: Vec<IrArm> = Vec::new();
    proof {
        assert(all.len() == source.len());
        assert(arm_nodes(out@) =~= jumped_arms(all.take(0), me@));
    }
    for arm in iter: arms
        invariant
            iter.seq() == source,
            all == arm_nodes(source),
            all.len() == source.len(),
            arm_nodes(out@) == jumped_arms(all.take(iter.index()), me@),
    {
        let ghost i = iter.index();
        let ghost before = arm_nodes(out@);
        proof {
            assert(arm == source[i]);
            assert(decreases_to!(source => source[i]));
            assert(all.take(i + 1).drop_last() =~= all.take(i));
            assert(all.take(i + 1).last() == source[i]@);
        }
        let next = jump_arm(arm, me);
        out.push(next);
        assert(arm_nodes(out@) =~= before.push(next@));
    }
    assert(all.take(all.len() as int) =~= all);
    out
}

/// Turns every direct self call in tail position into a jump, function by
/// function.
pub fn rewrite_self_tail_calls(program: IrProgram) -> (r: IrProgram)
    ensures
        r@ == program@.map_values(|f: FnNode| with_jumps(f)),
{
    let ghost source = program.functions@;
    let mut out: Vec<IrFunction> = Vec::new();
    for f in iter: program.functions
        invariant
            iter.seq() == source,
            out@.len() == iter.index(),
            forall|k: int|
                0 <= k < iter.index() ==> (#[trigger] out@[k])@ == with_jumps(source[k]@),
    {
        let body = jump(f.body, f.name.as_str());
        let next = IrFunction {
            name: f.name,
            params: f.params,
            ret: f.ret,
            throws: f.throws,
            effects: f.effects,
            body,
        };
        out.push(next);
    }
    let r = IrProgram { functions: out };
    assert(r@ =~= program@.map_values(|f: FnNode| with_jumps(f)));
    r
}

/// A jump does what the call in its place does: an expression with its self tail calls
/// as jumps comes to the same.
pub proof fn jumps_mean_calls(m: Model, me: Seq<char>, env: Env, e: Node, t: Seq<Event>)
    ensures
        eval(m, me, env, jumped(e, me), t) == eval(m, me, env, e, t),
    decreases e, 1nat,
{
    match e {
        Node::Call { callee, args, .. } => {
            if refers_to(*callee, me) {
                assert(eval(m, me, env, *callee, t) == done((m.function)(me), t));
            }
        },
        Node::Let { name, value, next, .. } => {
            let v = eval(m, me, env, *value, t);
            if let Outcome::Done(x) = v.out {
                jumps_mean_calls(m, me, env.insert(name, x), *next, v.trace);
            }
        },
        Node::Release { next, .. } => jumps_mean_calls(m, me, env, *next, t),
        Node::If { cond, then, els, .. } => {
            let c = eval(m, me, env, *cond, t);
            jumps_mean_calls(m, me, env, *then, c.trace);
            jumps_mean_calls(m, me, env, *els, c.trace);
        },
        Node::Match { scrutinee, arms, .. } => {
            let v = eval(m, me, env, *scrutinee, t);
            if let Outcome::Done(x) = v.out {
                jumps_mean_calls_in_arms(m, me, env, arms, x, v.trace);
            }
        },
        Node::Try { body, arms, .. } => {
            let v = eval(m, me, env, *body, t);
            if let Outcome::Raised(x) = v.out {
                jumps_mean_calls_in_arms(m, me, env, arms, x, v.trace);
            }
        },
        _ => {},
    }
}

proof fn jumps_mean_calls_in_arms(m: Model, me: Seq<char>, env: Env, s: Seq<ArmNode>, v: Value, t: Seq<Event>)
    ensures
        choose_arm(m, me, env, jumped_arms(s, me), v, t) == choose_arm(m, me, env, s, v, t),
    decreases s, 0nat,
{
    if s.len() > 0 {
        jumps_mean_calls_in_arms(m, me, env, s.drop_last(), v, t);
        assert(jumped_arms(s, me).drop_last() =~= jumped_arms(s.drop_last(), me));
        if let Choice::Missed(after) = choose_arm(m, me, env, s.drop_last(), v, t) {
            jumps_mean_calls_in_arm(m, me, env, s.last(), v, after);
        }
    }
}

proof fn jumps_mean_calls_in_arm(m: Model, me: Seq<char>, env: Env, arm: ArmNode, v: Value, t: Seq<Event>)
    ensures
        try_arm(m, me, env, jumped_arm(arm, me), v, t) == try_arm(m, me, env, arm, v, t),
    decreases arm, 1nat,
{
    match arm.pattern {
        Pat::Variant { bindings, .. } => {
            if let Value::Variant(_, vals) = v {
                jumps_mean_calls_in_body(m, me, bind_all(env, bindings, vals), arm, t);
            }
        },
        Pat::Wildcard { binding } => match binding {
            Some(b) => jumps_mean_calls_in_body(m, me, env.insert(b.name, v), arm, t),
            None => jumps_mean_calls_in_body(m, me, env, arm, t),
        },
    }
}

proof fn jumps_mean_calls_in_body(m: Model, me: Seq<char>, env: Env, arm: ArmNode, t: Seq<Event>)
    ensures
        take_arm(m, me, env, jumped_arm(arm, me), t) == take_arm(m, me, env, arm, t),
    decreases arm, 0nat,
{
    match arm.guard {
        Some(guard) => {
            let g = eval(m, me, env, *guard, t);
            jumps_mean_calls(m, me, env, *arm.body, g.trace);
        },
        None => jumps_mean_calls(m, me, env, *arm.body, t),
    }
}

} // verus!
