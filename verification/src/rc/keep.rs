//! Reference counting keeps types: every function keeps its signature, and its
//! body the type that it has.

use vstd::prelude::*;

use crate::ir::{bind_tys, node_ty, Bind, FnNode, Node};
use crate::rc::elide::{elided, move_retain, optimize, optimize_params, strip};
use crate::rc::insert::{
    any_release, atomize, bind_all, operands_of, own, own_body, own_call, own_match,
    own_match_arms, release_after, release_all, release_arm_tail, release_arm_tails,
    release_params, release_tails, rewrite_operands, temp_name, with_operands, wrap_node, Hoist,
};
use crate::rc::rename::{bind_params, next_count, rename, Scope, Suffixes};
use crate::rc::{manage_fns, managed, rename_fns};
use crate::types::Ty;

verus! {

proof fn lemma_bind_all(s: Seq<Hoist>, body: Node)
    ensures
        node_ty(bind_all(s, body)) == node_ty(body),
    decreases s.len(),
{
    reveal(bind_all);
    if s.len() > 0 {
        let h = s.last();
        lemma_bind_all(
            s.drop_last(),
            Node::Let {
                name: h.name,
                value_ty: h.ty,
                value: Box::new(h.value),
                next: Box::new(body),
            },
        );
    }
}

proof fn lemma_release_all(s: Seq<Hoist>, body: Node)
    ensures
        node_ty(release_all(s, body)) == node_ty(body),
    decreases s.len(),
{
    reveal(release_all);
    if s.len() > 0 {
        lemma_release_all(s.drop_last(), body);
    }
}

proof fn lemma_wrap_node(n: u64, s: Seq<Hoist>, node: Node)
    ensures
        node_ty(wrap_node(n, s, node).to) == node_ty(node),
{
    reveal(wrap_node);
    if any_release(s) {
        let name = temp_name(n);
        let ty = node_ty(node);
        let var = Node::Var { name, ty };
        lemma_release_all(s, var);
        lemma_bind_all(
            s,
            Node::Let {
                name,
                value_ty: ty,
                value: Box::new(node),
                next: Box::new(release_all(s, var)),
            },
        );
    } else {
        lemma_bind_all(s, node);
    }
}

proof fn lemma_release_tails(n: u64, e: Node, x: Seq<char>, ty: Ty)
    ensures
        node_ty(release_tails(n, e, x, ty).to) == node_ty(e),
    decreases e,
{
    reveal(release_tails);
    reveal(release_arm_tail);
    reveal(release_arm_tails);
    reveal(release_after);
    reveal_with_fuel(node_ty, 3);
    match e {
        Node::Let { next, .. } => lemma_release_tails(n, *next, x, ty),
        Node::Release { next, .. } => lemma_release_tails(n, *next, x, ty),
        _ => {},
    }
}

proof fn lemma_release_params(n: u64, params: Seq<Bind>, body: Node)
    ensures
        node_ty(release_params(n, params, body).to) == node_ty(body),
    decreases params.len(),
{
    reveal(release_params);
    if params.len() > 0 {
        lemma_release_params(n, params.drop_last(), body);
        let init = release_params(n, params.drop_last(), body);
        lemma_release_tails(init.next, init.to, params.last().name, params.last().ty);
    }
}

/// Making an expression owned keeps its type.
pub proof fn owning_keeps_the_type(n: u64, e: Node)
    ensures
        node_ty(own(n, e).to) == node_ty(e),
    decreases e,
{
    match e {
        Node::Let { name, value_ty, value, next } => {
            let v = own(n, *value);
            let b = own(v.next, *next);
            owning_keeps_the_type(v.next, *next);
            lemma_release_tails(b.next, b.to, name, value_ty);
        },
        Node::Call { callee, args, ret } => {
            let r = rewrite_operands(n, e, args.len());
            lemma_wrap_node(r.next, r.hoisted, Node::Call { callee, args: r.ops, ret });
            assert(own(n, e) == own_call(n, e));
            let ty = node_ty(*callee);
            let v = own(r.next, *callee);
            let name = temp_name(v.next);
            lemma_wrap_node(
                next_count(v.next),
                seq![Hoist { name, ty, value: v.to, release: true }] + r.hoisted,
                Node::Call { callee: Box::new(Node::Var { name, ty }), args: r.ops, ret },
            );
        },
        Node::Match { scrutinee, arms, ty } => {
            let a = own_match_arms(n, arms);
            assert(own(n, e) == own_match(n, e));
            if !(*scrutinee is Var) {
                let sty = node_ty(*scrutinee);
                let v = own(a.next, *scrutinee);
                let name = temp_name(v.next);
                let t = release_arm_tails(next_count(v.next), a.to, name, sty);
                let inner = Node::Match {
                    scrutinee: Box::new(Node::Var { name, ty: sty }),
                    arms: t.to,
                    ty,
                };
                assert(node_ty(inner) == ty);
                assert(own_match(n, e).to == (Node::Let {
                    name,
                    value_ty: sty,
                    value: Box::new(v.to),
                    next: Box::new(inner),
                }));
            } else {
                assert(own_match(n, e).to == (Node::Match { scrutinee, arms: a.to, ty }));
            }
        },
        Node::TailSelfCall { args, ty } => {
            let r = atomize(n, args);
            lemma_bind_all(r.hoisted, Node::TailSelfCall { args: r.ops, ty });
        },
        Node::Intrinsic { .. } | Node::Platform { .. } | Node::Binary { .. } | Node::Concat { .. }
        | Node::Array { .. } | Node::EnumValue { .. } | Node::RecordValue { .. }
        | Node::FieldAccess { .. } | Node::CharFromCode(_) | Node::StringFromChar(_) => {
            let r = rewrite_operands(n, e, operands_of(e).len());
            lemma_wrap_node(r.next, r.hoisted, with_operands(e, r.ops));
        },
        Node::Throw { value } => {
            let v = own(n, *value);
            let ty = node_ty(v.to);
            let name = temp_name(v.next);
            let thrown = Node::Throw { value: Box::new(Node::Var { name, ty }) };
            assert(node_ty(thrown) == Ty::Never);
        },
        _ => {},
    }
}

proof fn lemma_move_retain(e: Node, x: Seq<char>)
    ensures
        move_retain(e, x) matches Some(m) ==> node_ty(m) == node_ty(e),
    decreases e,
{
    match e {
        Node::Retain { value } => lemma_move_retain(*value, x),
        Node::Let { next, .. } => lemma_move_retain(*next, x),
        Node::Release { next, .. } => lemma_move_retain(*next, x),
        _ => {},
    }
}

proof fn lemma_strip(e: Node, x: Seq<char>)
    ensures
        node_ty(strip(e, x)) == node_ty(e),
    decreases e,
{
    match e {
        Node::Let { next, .. } => lemma_strip(*next, x),
        Node::Release { next, .. } => lemma_strip(*next, x),
        _ => {},
    }
}

proof fn lemma_optimize(e: Node, x: Seq<char>)
    ensures
        node_ty(optimize(e, x)) == node_ty(e),
    decreases e,
{
    match e {
        Node::Let { next, .. } => {
            lemma_optimize(*next, x);
            lemma_strip(*next, x);
        },
        Node::Release { next, .. } => lemma_optimize(*next, x),
        _ => {},
    }
}

proof fn lemma_optimize_params(params: Seq<Bind>, body: Node)
    ensures
        node_ty(optimize_params(params, body)) == node_ty(body),
    decreases params.len(),
{
    if params.len() > 0 {
        lemma_optimize_params(params.drop_last(), body);
        lemma_optimize(optimize_params(params.drop_last(), body), params.last().name);
    }
}

/// Moving last uses keeps the type of an expression.
pub proof fn moving_keeps_the_type(e: Node)
    ensures
        node_ty(elided(e)) == node_ty(e),
    decreases e,
{
    match e {
        Node::Let { name, next, .. } => {
            moving_keeps_the_type(*next);
            lemma_optimize(elided(*next), name);
        },
        Node::Release { next, .. } => moving_keeps_the_type(*next),
        Node::Retain { value } => moving_keeps_the_type(*value),
        _ => {},
    }
}

proof fn lemma_bind_params(used: Suffixes, scope: Scope, s: Seq<Bind>)
    ensures
        bind_tys(bind_params(used, scope, s).binds) == bind_tys(s),
    decreases s.len(),
{
    if s.len() > 0 {
        lemma_bind_params(used, scope, s.drop_last());
        let b = bind_params(used, scope, s.drop_last());
        let all = bind_params(used, scope, s);
        assert(all.binds.drop_last() =~= b.binds);
        assert(bind_tys(s) =~= bind_tys(s.drop_last()).push(s.last().ty));
        assert(bind_tys(all.binds) =~= bind_tys(b.binds).push(s.last().ty));
    } else {
        assert(bind_tys(bind_params(used, scope, s).binds) =~= bind_tys(s));
    }
}

/// Renaming keeps the type of an expression.
pub proof fn renaming_keeps_the_type(used: Suffixes, scope: Scope, e: Node)
    ensures
        node_ty(rename(used, scope, e).to) == node_ty(e),
    decreases e,
{
    match e {
        Node::Let { name, value, next, .. } => {
            let v = rename(used, scope, *value);
            let unique = crate::rc::rename::unique_name(v.used, scope, name);
            renaming_keeps_the_type(
                crate::rc::rename::after_bind(v.used, scope, name),
                scope.push((name, unique)),
                *next,
            );
        },
        Node::Fn { params, .. } => lemma_bind_params(used, scope, params),
        Node::Retain { value } => renaming_keeps_the_type(used, scope, *value),
        Node::Release { next, .. } => renaming_keeps_the_type(used, scope, *next),
        _ => {},
    }
}

/// Whether two functions have the same signature, and bodies of the same type.
pub open spec fn same_signature(f: FnNode, g: FnNode) -> bool {
    &&& f.name == g.name
    &&& bind_tys(f.params) == bind_tys(g.params)
    &&& f.ret == g.ret
    &&& f.throws == g.throws
    &&& f.effects == g.effects
    &&& node_ty(f.body) == node_ty(g.body)
}

proof fn lemma_renamed(used: Suffixes, p: Seq<FnNode>, i: int)
    requires
        0 <= i < p.len(),
    ensures
        rename_fns(used, p).to.len() == p.len(),
        same_signature(rename_fns(used, p).to[i], p[i]),
    decreases p.len(),
{
    let front = p.drop_last();
    let init = rename_fns(used, front);
    lemma_renamed_len(used, front);
    if i < front.len() {
        lemma_renamed(used, front, i);
    } else {
        let f = p.last();
        let b = bind_params(init.used, Seq::empty(), f.params);
        lemma_bind_params(init.used, Seq::empty(), f.params);
        renaming_keeps_the_type(b.used, b.scope, f.body);
    }
}

proof fn lemma_renamed_len(used: Suffixes, p: Seq<FnNode>)
    ensures
        rename_fns(used, p).to.len() == p.len(),
    decreases p.len(),
{
    if p.len() > 0 {
        lemma_renamed_len(used, p.drop_last());
    }
}

proof fn lemma_managed_len(n: u64, p: Seq<FnNode>)
    ensures
        manage_fns(n, p).to.len() == p.len(),
    decreases p.len(),
{
    if p.len() > 0 {
        lemma_managed_len(n, p.drop_last());
    }
}

proof fn lemma_managed(n: u64, p: Seq<FnNode>, i: int)
    requires
        0 <= i < p.len(),
    ensures
        manage_fns(n, p).to.len() == p.len(),
        same_signature(manage_fns(n, p).to[i], p[i]),
    decreases p.len(),
{
    let front = p.drop_last();
    let init = manage_fns(n, front);
    lemma_managed_len(n, front);
    if i < front.len() {
        lemma_managed(n, front, i);
    } else {
        let f = p.last();
        let o = own(init.next, f.body);
        owning_keeps_the_type(init.next, f.body);
        lemma_release_params(o.next, f.params, o.to);
        let b = own_body(init.next, f.params, f.body);
        moving_keeps_the_type(b.to);
        lemma_optimize_params(f.params, elided(b.to));
    }
}

/// A program has the same functions after reference counting, each with the
/// signature and the result type that it had.
pub proof fn managed_functions_keep_their_signatures(p: Seq<FnNode>, i: int)
    requires
        0 <= i < p.len(),
    ensures
        managed(p).len() == p.len(),
        same_signature(managed(p)[i], p[i]),
{
    let renamed = rename_fns(Map::empty(), p).to;
    lemma_renamed(Map::empty(), p, i);
    lemma_managed(0, renamed, i);
}

} // verus!
