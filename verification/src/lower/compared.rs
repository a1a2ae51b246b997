//! Operators do what they say.

use vstd::prelude::*;

use crate::ir::Node;
use crate::lower::calls::{applied, binary, compare, impl_target, negated, swapped, Cx, St, Val};
use crate::lower::tables::{method_named, operator_of};
use crate::meaning::{
    call, done, eval, eval_all, stuck, Env, Event, Model, Outcome, Run, Runs, Value,
};
use crate::strings::{decimal, digit};
use crate::subst::impl_method_name;
use crate::types::{BinaryOp, Ty};

verus! {

/// The function that a trait's method is for two values of the given types.
pub open spec fn method_function(cx: Cx, trait_name: Seq<char>, method: Seq<char>, a: Ty, b: Ty) -> Option<
    Seq<char>,
> {
    match impl_target(cx, trait_name, method, seq![a, b], None) {
        Some((self_ty, ix)) => if method_named(cx.program.impls@[ix as int].methods@, method) is Some {
            Some(impl_method_name(trait_name, self_ty, method))
        } else {
            None
        },
        None => None,
    }
}

/// Whether a method decides a relation of two values, and does nothing else.
pub open spec fn decides(m: Model, cx: Cx, trait_name: Seq<char>, method: Seq<char>, a: Ty, b: Ty, f: spec_fn(Value, Value) -> bool) -> bool {
    match method_function(cx, trait_name, method, a, b) {
        Some(name) => forall|s: Seq<Value>, t: Seq<Event>|
            s.len() == 2 ==> #[trigger] (m.call)((m.function)(name), s, t) == done(
                Value::Bool(f(s[0], s[1])),
                t,
            ),
        None => false,
    }
}

/// Two operands, from left to right, and what is made of them.
pub open spec fn both(m: Model, me: Seq<char>, env: Env, a: Node, b: Node, f: spec_fn(Value, Value, Seq<Event>) -> Run, t: Seq<Event>) -> Run {
    let x = eval(m, me, env, a, t);
    match x.out {
        Outcome::Done(v) => {
            let y = eval(m, me, env, b, x.trace);
            match y.out {
                Outcome::Done(w) => f(v, w, y.trace),
                _ => y,
            }
        },
        _ => x,
    }
}

/// Whether an operand does not read the variables that comparisons bind.
pub open spec fn reads_no_operand(m: Model, me: Seq<char>, e: Node) -> bool {
    forall|env: Env, n: nat, v: Value, t: Seq<Event>|
        #![trigger eval(m, me, env.insert("$cmp"@ + decimal(n), v), e, t)]
        eval(m, me, env.insert("$cmp"@ + decimal(n), v), e, t) == eval(m, me, env, e, t)
}

proof fn lemma_pair(m: Model, me: Seq<char>, env: Env, a: Node, b: Node, t: Seq<Event>)
    ensures
        ({
            let r = eval_all(m, me, env, seq![a, b], t);
            let x = eval(m, me, env, a, t);
            let y = eval(m, me, env, b, x.trace);
            match x.out {
                Outcome::Done(v) => match y.out {
                    Outcome::Done(w) => r == (Runs {
                        vals: seq![v, w],
                        stop: None,
                        trace: y.trace,
                    }),
                    out => r.stop == Some(out) && r.trace == y.trace,
                },
                out => r.stop == Some(out) && r.trace == x.trace,
            }
        }),
{
    reveal_with_fuel(eval_all, 3);
    let s = seq![a, b];
    let one = s.drop_last();
    assert(one.last() == a);
    assert(one.drop_last().len() == 0);
    assert(s.last() == b);
    let x = eval(m, me, env, a, t);
    let y = eval(m, me, env, b, x.trace);
    if x.out is Done && y.out is Done {
        assert(eval_all(m, me, env, s, t).vals =~= seq![x.out->Done_0, y.out->Done_0]);
    }
}

/// A call of a trait's method hands it its operands, from left to right.
proof fn lemma_compare(m: Model, me: Seq<char>, env: Env, cx: Cx, st: St, trait_name: Seq<char>, method: Seq<char>, a: Val, b: Val, t: Seq<Event>)
    requires
        method_function(cx, trait_name, method, a.ty, b.ty) is Some,
    ensures
        eval(m, me, env, compare(cx, st, trait_name, method, a, b).1.node, t) == both(
            m,
            me,
            env,
            a.node,
            b.node,
            |v: Value, w: Value, after: Seq<Event>|
                (m.call)(
                    (m.function)(
                        method_function(cx, trait_name, method, a.ty, b.ty)->Some_0,
                    ),
                    seq![v, w],
                    after,
                ),
            t,
        ),
{
    let name = method_function(cx, trait_name, method, a.ty, b.ty)->Some_0;
    let node = compare(cx, st, trait_name, method, a, b).1.node;
    assert(seq![trait_name][0] == trait_name);
    if let Node::Call { callee, args, .. } = node {
        assert(args == seq![a.node, b.node]);
        assert(eval(m, me, env, *callee, t) == done((m.function)(name), t));
        lemma_pair(m, me, env, a.node, b.node, t);
    } else {
        assert(false);
    }
}

proof fn lemma_negated(m: Model, me: Seq<char>, env: Env, e: Node, t: Seq<Event>)
    ensures
        ({
            let c = eval(m, me, env, e, t);
            eval(m, me, env, negated(e), t) == (match c.out {
                Outcome::Done(Value::Bool(b)) => done(Value::Bool(!b), c.trace),
                Outcome::Done(_) => stuck(c.trace),
                _ => c,
            })
        }),
{
    let c = eval(m, me, env, e, t);
    assert(eval(m, me, env, Node::Bool(false), c.trace) == done(Value::Bool(false), c.trace));
    assert(eval(m, me, env, Node::Bool(true), c.trace) == done(Value::Bool(true), c.trace));
}

/// The two variables of a comparison differ.
proof fn lemma_operands_differ(n: nat)
    ensures
        decimal(n) != decimal(n + 1),
{
    lemma_last_digit(n);
    lemma_last_digit(n + 1);
}

proof fn lemma_last_digit(n: nat)
    ensures
        decimal(n).len() > 0,
        decimal(n).last() == digit(n % 10),
{
    if n < 10 {
        assert(n % 10 == n);
    }
}

/// What a comparison says of two values, by an equality and an order.
pub open spec fn compared(op: BinaryOp, eq: spec_fn(Value, Value) -> bool, lt: spec_fn(Value, Value) -> bool, x: Value, y: Value) -> bool {
    match op {
        BinaryOp::Eq => eq(x, y),
        BinaryOp::Ne => !eq(x, y),
        BinaryOp::Lt => lt(x, y),
        BinaryOp::Gt => lt(y, x),
        BinaryOp::Le => !lt(y, x),
        _ => !lt(x, y),
    }
}

/// Whether an operator stands for a method.
pub open spec fn stands_for(cx: Cx, op: BinaryOp, trait_name: Seq<char>, method: Seq<char>) -> bool {
    exists|i: int|
        #![trigger cx.operators[i]]
        {
            &&& 0 <= i < cx.operators.len() <= usize::MAX
            &&& cx.operators[i].op == op
            &&& cx.operators[i].trait_name@ == trait_name
            &&& cx.operators[i].method@ == method
            &&& forall|j: int| 0 <= j < i ==> (#[trigger] cx.operators[j]).op != op
        }
}

proof fn lemma_operator(cx: Cx, op: BinaryOp, trait_name: Seq<char>, method: Seq<char>)
    requires
        stands_for(cx, op, trait_name, method),
    ensures
        match operator_of(cx.operators, op) {
            Some(i) => {
                &&& cx.operators[i as int].trait_name@ == trait_name
                &&& cx.operators[i as int].method@ == method
            },
            None => false,
        },
{
    let i = choose|i: int|
        #![trigger cx.operators[i]]
        {
            &&& 0 <= i < cx.operators.len() <= usize::MAX
            &&& cx.operators[i].op == op
            &&& cx.operators[i].trait_name@ == trait_name
            &&& cx.operators[i].method@ == method
            &&& forall|j: int| 0 <= j < i ==> (#[trigger] cx.operators[j]).op != op
        };
    lemma_first_operator(cx.operators, op, i);
}

proof fn lemma_first_operator(s: Seq<crate::typed::Operator>, op: BinaryOp, i: int)
    requires
        0 <= i < s.len() <= usize::MAX,
        s[i].op == op,
        forall|j: int| 0 <= j < i ==> (#[trigger] s[j]).op != op,
    ensures
        operator_of(s, op) == Some(i as usize),
    decreases s.len(),
{
    if i < s.len() - 1 {
        lemma_first_operator(s.drop_last(), op, i);
    } else {
        lemma_no_operator(s.drop_last(), op);
    }
}

proof fn lemma_no_operator(s: Seq<crate::typed::Operator>, op: BinaryOp)
    requires
        forall|j: int| 0 <= j < s.len() ==> (#[trigger] s[j]).op != op,
    ensures
        operator_of(s, op) is None,
    decreases s.len(),
{
    if s.len() > 0 {
        assert(s[s.len() - 1].op != op);
        assert forall|j: int| 0 <= j < s.drop_last().len() implies (#[trigger] s.drop_last()[j]).op
            != op by {
            assert(s[j].op != op);
        }
        lemma_no_operator(s.drop_last(), op);
    }
}

/// `a > b` and `a <= b`.
proof fn lemma_swapped(m: Model, me: Seq<char>, env: Env, cx: Cx, st: St, a: Val, b: Val, negate: bool, lt: spec_fn(Value, Value) -> bool, t: Seq<Event>)
    requires
        st.comparisons < u64::MAX,
        reads_no_operand(m, me, b.node),
        decides(m, cx, "Ord"@, "lt"@, applied(cx, b.ty), applied(cx, a.ty), lt),
    ensures
        eval(m, me, env, swapped(cx, st, a, b, negate).1.node, t) == both(
            m,
            me,
            env,
            a.node,
            b.node,
            |v: Value, w: Value, after: Seq<Event>| done(Value::Bool(lt(w, v) != negate), after),
            t,
        ),
{
    let e = swapped(cx, st, a, b, negate).1.node;
    if let Node::Let { name: a_name, next, .. } = e {
        if let Node::Let { name: b_name, next: body, .. } = *next {
            lemma_operands_differ(st.comparisons as nat);
            assert(a_name != b_name) by {
                let n = decimal(st.comparisons as nat);
                let k = decimal((st.comparisons + 1) as nat);
                if a_name == b_name {
                    assert(a_name.subrange("$cmp"@.len() as int, a_name.len() as int) =~= n);
                    assert(b_name.subrange("$cmp"@.len() as int, b_name.len() as int) =~= k);
                }
            }
            let x = eval(m, me, env, a.node, t);
            if let Outcome::Done(v) = x.out {
                let one = env.insert(a_name, v);
                assert(eval(m, me, one, b.node, x.trace) == eval(m, me, env, b.node, x.trace));
                let y = eval(m, me, env, b.node, x.trace);
                if let Outcome::Done(w) = y.out {
                    let two = one.insert(b_name, w);
                    let a_ty = applied(cx, a.ty);
                    let b_ty = applied(cx, b.ty);
                    let left = Val { node: Node::Var { name: b_name, ty: b_ty }, ty: b_ty };
                    let right = Val { node: Node::Var { name: a_name, ty: a_ty }, ty: a_ty };
                    let named = St {
                        comparisons: crate::lower::calls::after(
                            crate::lower::calls::after(st.comparisons),
                        ),
                        ..st
                    };
                    let c = compare(cx, named, "Ord"@, "lt"@, left, right).1.node;
                    lemma_compare(m, me, two, cx, named, "Ord"@, "lt"@, left, right, y.trace);
                    assert(eval(m, me, two, left.node, y.trace) == done(w, y.trace));
                    assert(eval(m, me, two, right.node, y.trace) == done(v, y.trace));
                    assert(eval(m, me, two, c, y.trace) == done(Value::Bool(lt(w, v)), y.trace));
                    lemma_negated(m, me, two, c, y.trace);
                    assert(*body == if negate {
                        negated(c)
                    } else {
                        c
                    });
                    assert(eval(m, me, one, *next, x.trace) == eval(m, me, two, *body, y.trace));
                } else {
                    assert(eval(m, me, one, *next, x.trace) == y);
                }
            }
        }
    }
}

/// A comparison evaluates its operands from left to right and compares their values:
/// `==` and `<` as the methods `eq` and `lt` do, `!=` as not equal, `>` as the other
/// way round, `<=` and `>=` as not greater and not less.
pub proof fn comparisons_compare(
    m: Model,
    me: Seq<char>,
    env: Env,
    cx: Cx,
    st: St,
    op: BinaryOp,
    a: Val,
    b: Val,
    eq: spec_fn(Value, Value) -> bool,
    lt: spec_fn(Value, Value) -> bool,
    t: Seq<Event>,
)
    requires
        op is Eq || op is Ne || op is Lt || op is Gt || op is Le || op is Ge,
        st.comparisons < u64::MAX,
        reads_no_operand(m, me, b.node),
        stands_for(cx, BinaryOp::Eq, "Eq"@, "eq"@),
        stands_for(cx, BinaryOp::Lt, "Ord"@, "lt"@),
        decides(m, cx, "Eq"@, "eq"@, a.ty, b.ty, eq),
        decides(m, cx, "Ord"@, "lt"@, a.ty, b.ty, lt),
        decides(m, cx, "Ord"@, "lt"@, applied(cx, b.ty), applied(cx, a.ty), lt),
    ensures
        eval(m, me, env, binary(cx, st, op, a, b).1.node, t) == both(
            m,
            me,
            env,
            a.node,
            b.node,
            |v: Value, w: Value, after: Seq<Event>|
                done(Value::Bool(compared(op, eq, lt, v, w)), after),
            t,
        ),
{
    match op {
        BinaryOp::Ne => {
            lemma_compare(m, me, env, cx, st, "Eq"@, "eq"@, a, b, t);
            let c = compare(cx, st, "Eq"@, "eq"@, a, b).1.node;
            lemma_negated(m, me, env, c, t);
        },
        BinaryOp::Ge => {
            lemma_compare(m, me, env, cx, st, "Ord"@, "lt"@, a, b, t);
            let c = compare(cx, st, "Ord"@, "lt"@, a, b).1.node;
            lemma_negated(m, me, env, c, t);
        },
        BinaryOp::Gt => {
            lemma_swapped(m, me, env, cx, st, a, b, false, lt, t);
        },
        BinaryOp::Le => {
            lemma_swapped(m, me, env, cx, st, a, b, true, lt, t);
        },
        BinaryOp::Eq => {
            lemma_operator(cx, op, "Eq"@, "eq"@);
            lemma_compare(m, me, env, cx, st, "Eq"@, "eq"@, a, b, t);
        },
        _ => {
            lemma_operator(cx, op, "Ord"@, "lt"@);
            lemma_compare(m, me, env, cx, st, "Ord"@, "lt"@, a, b, t);
        },
    }
}

/// Where `eq` and `lt` are equality and order of `Int`s, a comparison of two `Int`s
/// says of them what it is written as.
pub proof fn comparisons_of_ints(
    m: Model,
    me: Seq<char>,
    env: Env,
    cx: Cx,
    st: St,
    op: BinaryOp,
    a: Val,
    b: Val,
    eq: spec_fn(Value, Value) -> bool,
    lt: spec_fn(Value, Value) -> bool,
    t: Seq<Event>,
)
    requires
        st.comparisons < u64::MAX,
        reads_no_operand(m, me, b.node),
        stands_for(cx, BinaryOp::Eq, "Eq"@, "eq"@),
        stands_for(cx, BinaryOp::Lt, "Ord"@, "lt"@),
        decides(m, cx, "Eq"@, "eq"@, a.ty, b.ty, eq),
        decides(m, cx, "Ord"@, "lt"@, a.ty, b.ty, lt),
        decides(m, cx, "Ord"@, "lt"@, applied(cx, b.ty), applied(cx, a.ty), lt),
        forall|x: int, y: int| #[trigger] eq(Value::Int(x), Value::Int(y)) == (x == y),
        forall|x: int, y: int| #[trigger] lt(Value::Int(x), Value::Int(y)) == (x < y),
    ensures
        ({
            let x = eval(m, me, env, a.node, t);
            let y = eval(m, me, env, b.node, x.trace);
            let r = eval(m, me, env, binary(cx, st, op, a, b).1.node, t);
            x.out is Done && x.out->Done_0 is Int && y.out is Done && y.out->Done_0 is Int ==> {
                let n = x.out->Done_0->Int_0;
                let k = y.out->Done_0->Int_0;
                match op {
                    BinaryOp::Eq => r == done(Value::Bool(n == k), y.trace),
                    BinaryOp::Ne => r == done(Value::Bool(n != k), y.trace),
                    BinaryOp::Lt => r == done(Value::Bool(n < k), y.trace),
                    BinaryOp::Le => r == done(Value::Bool(n <= k), y.trace),
                    BinaryOp::Gt => r == done(Value::Bool(n > k), y.trace),
                    BinaryOp::Ge => r == done(Value::Bool(n >= k), y.trace),
                    _ => true,
                }
            }
        }),
{
    if op is Eq || op is Ne || op is Lt || op is Gt || op is Le || op is Ge {
        comparisons_compare(m, me, env, cx, st, op, a, b, eq, lt, t);
        let x = eval(m, me, env, a.node, t);
        let y = eval(m, me, env, b.node, x.trace);
        if x.out is Done && x.out->Done_0 is Int && y.out is Done && y.out->Done_0 is Int {
            let n = x.out->Done_0->Int_0;
            let k = y.out->Done_0->Int_0;
            assert(x.out == Outcome::Done(Value::Int(n)));
            assert(y.out == Outcome::Done(Value::Int(k)));
            assert(eq(Value::Int(n), Value::Int(k)) == (n == k));
            assert(lt(Value::Int(n), Value::Int(k)) == (n < k));
            assert(lt(Value::Int(k), Value::Int(n)) == (k < n));
        }
    }
}

/// An operator that stands for a method, and is not made of another one, is a call of
/// that method with the operands, from left to right.
pub proof fn operators_call_their_methods(
    m: Model,
    me: Seq<char>,
    env: Env,
    cx: Cx,
    st: St,
    op: BinaryOp,
    trait_name: Seq<char>,
    method: Seq<char>,
    a: Val,
    b: Val,
    t: Seq<Event>,
)
    requires
        !(op is Ne || op is Gt || op is Le || op is Ge),
        stands_for(cx, op, trait_name, method),
        method_function(cx, trait_name, method, a.ty, b.ty) is Some,
    ensures
        eval(m, me, env, binary(cx, st, op, a, b).1.node, t) == both(
            m,
            me,
            env,
            a.node,
            b.node,
            |v: Value, w: Value, after: Seq<Event>|
                (m.call)(
                    (m.function)(
                        method_function(cx, trait_name, method, a.ty, b.ty)->Some_0,
                    ),
                    seq![v, w],
                    after,
                ),
            t,
        ),
{
    lemma_operator(cx, op, trait_name, method);
    lemma_compare(m, me, env, cx, st, trait_name, method, a, b, t);
}

} // verus!
