//! What is lowered does what is written, step by step.

use vstd::prelude::*;

use crate::ast::{BlockItem, Expr};
use crate::ir::Bind;
use crate::lower::calls::{applied, Cx, St};
use crate::lower::expr::{lower_arms, lower_bound, lower_expr, lower_items};
use crate::meaning::{
    choose_arm, eval, stuck, Choice, Env, Event, Model, Outcome, Run, Value,
};
use crate::types::{opt_ty, Ty};

verus! {

/// An `if` decides by its condition, and then does what the branch that was chosen does:
/// the first where the condition is true, the second where it is false.
pub proof fn conditions_choose(
    m: Model,
    me: Seq<char>,
    env: Env,
    cx: Cx,
    st: St,
    scope: Seq<Bind>,
    e: Expr,
    expected: Option<Ty>,
    test: bool,
    t: Seq<Event>,
)
    requires
        e is If,
    ensures
        e matches Expr::If { cond, then, els, .. } && {
            let (s1, c) = lower_expr(cx, st, scope, *cond, None, test);
            let (s2, a) = lower_items(cx, s1, scope, then.items@, 0, expected, test);
            let b = lower_items(cx, s2, scope, els.items@, 0, expected, test).1;
            let decided = eval(m, me, env, c.node, t);
            let r = eval(m, me, env, lower_expr(cx, st, scope, e, expected, test).1.node, t);
            &&& decided.out == Outcome::Done(Value::Bool(true)) ==> r == eval(
                m,
                me,
                env,
                a.node,
                decided.trace,
            )
            &&& decided.out == Outcome::Done(Value::Bool(false)) ==> r == eval(
                m,
                me,
                env,
                b.node,
                decided.trace,
            )
            &&& !(decided.out is Done) ==> r == decided
        },
{
}

/// A block does what stands in it from the first to the last, and comes to what its
/// last expression does. What a `let` binds is known from there on.
pub proof fn blocks_go_on(
    m: Model,
    me: Seq<char>,
    env: Env,
    cx: Cx,
    st: St,
    scope: Seq<Bind>,
    items: Seq<BlockItem>,
    i: int,
    expected: Option<Ty>,
    test: bool,
    t: Seq<Event>,
)
    requires
        0 <= i < items.len(),
    ensures
        ({
            let node = lower_items(cx, st, scope, items, i, expected, test).1.node;
            let r = eval(m, me, env, node, t);
            match items[i] {
                BlockItem::Expr(e) => if i + 1 == items.len() {
                    r == eval(m, me, env, lower_expr(cx, st, scope, e, expected, test).1.node, t)
                } else {
                    let (s1, v) = lower_expr(cx, st, scope, e, None, test);
                    let n = lower_items(cx, s1, scope, items, i + 1, expected, test).1;
                    let first = eval(m, me, env, v.node, t);
                    if first.out is Done {
                        exists|name: Seq<char>| #[trigger]
                            env.insert(name, first.out->Done_0).dom().contains(name) && r == eval(
                                m,
                                me,
                                env.insert(name, first.out->Done_0),
                                n.node,
                                first.trace,
                            )
                    } else {
                        r == first
                    }
                },
                BlockItem::Let { name, ty, value, .. } => {
                    let annotated = match opt_ty(ty) {
                        Some(t) => Some(applied(cx, t)),
                        None => None,
                    };
                    let (s1, v) = lower_bound(cx, st, scope, value, annotated, test);
                    let value_ty = match annotated {
                        Some(t) => t,
                        None => v.ty,
                    };
                    let inner = scope.push(Bind { name: name@, ty: value_ty });
                    let n = lower_items(cx, s1, inner, items, i + 1, expected, test).1;
                    let first = eval(m, me, env, v.node, t);
                    if first.out is Done {
                        r == eval(
                            m,
                            me,
                            env.insert(name@, first.out->Done_0),
                            n.node,
                            first.trace,
                        )
                    } else {
                        r == first
                    }
                },
            }
        }),
{
    if let BlockItem::Expr(e) = items[i] {
        if i + 1 < items.len() {
            let (s1, v) = lower_expr(cx, st, scope, e, None, test);
            let node = lower_items(cx, st, scope, items, i, expected, test).1.node;
            let first = eval(m, me, env, v.node, t);
            if let crate::ir::Node::Let { name, .. } = node {
                if first.out is Done {
                    assert(env.insert(name, first.out->Done_0).dom().contains(name));
                }
            }
        }
    }
}

/// A `throw` raises what it is given, and a `panic` panics with it. A `match` takes the
/// first arm that fits what it looks at.
pub proof fn errors_and_arms_are_taken(
    m: Model,
    me: Seq<char>,
    env: Env,
    cx: Cx,
    st: St,
    scope: Seq<Bind>,
    e: Expr,
    expected: Option<Ty>,
    t: Seq<Event>,
)
    ensures
        ({
            let r = eval(m, me, env, lower_expr(cx, st, scope, e, expected, false).1.node, t);
            match e {
                Expr::Throw { value, .. } => {
                    let v = eval(
                        m,
                        me,
                        env,
                        lower_expr(cx, st, scope, *value, None, false).1.node,
                        t,
                    );
                    if v.out is Done {
                        r == (Run { out: Outcome::Raised(v.out->Done_0), trace: v.trace })
                    } else {
                        r == v
                    }
                },
                Expr::Panic { message, .. } => {
                    let v = eval(
                        m,
                        me,
                        env,
                        lower_expr(cx, st, scope, *message, None, false).1.node,
                        t,
                    );
                    if v.out is Done {
                        r == (Run { out: Outcome::Panicked(v.out->Done_0), trace: v.trace })
                    } else {
                        r == v
                    }
                },
                Expr::Match { scrutinee, arms, .. } => {
                    let (s1, v) = lower_expr(cx, st, scope, *scrutinee, None, false);
                    let lowered = lower_arms(cx, s1, scope, arms@, v.ty, expected, false).1;
                    let x = eval(m, me, env, v.node, t);
                    if x.out is Done {
                        match choose_arm(m, me, env, lowered, x.out->Done_0, x.trace) {
                            Choice::Taken(taken) => r == taken,
                            Choice::Missed(after) => r == stuck(after),
                        }
                    } else {
                        r == x
                    }
                },
                _ => true,
            }
        }),
{
}

} // verus!
