//! The type that lowering notes of an expression is the type of what it is
//! lowered to.

use vstd::prelude::*;

use super::calls::{
    binary, field_path, impl_target, named_value, param_tys, swapped, test_site, trait_call, Cx,
    St, Val,
};
use super::expr::{
    bound_fields, lower_array, lower_bound, lower_call, lower_expr, lower_items, param_scope,
    record_value, stored, target_call, Fields, Target,
};
use crate::ast::{BlockItem, Expr};
use crate::ir::{bind_tys, node_ty, Bind, Node};
use crate::strings::texts;
use crate::types::{BinaryOp, Ty};

verus! {

/// Whether a name is that of an operand of a comparison with swapped operands.
pub open spec fn is_operand(name: Seq<char>) -> bool {
    "$cmp"@.is_prefix_of(name)
}

/// Whether what is bound for a comparison with swapped operands ends in a `Bool`,
/// as it does where `lt` is declared to give one and there is an impl to call.
pub open spec fn compares_to_bool(e: Node) -> bool
    decreases e,
{
    match e {
        Node::Let { name, next, .. } => (is_operand(name) ==> node_ty(*next) == Ty::Bool)
            && compares_to_bool(*next),
        _ => true,
    }
}

/// Whether the noted type is that of the node.
pub open spec fn agrees(v: Val) -> bool {
    compares_to_bool(v.node) ==> node_ty(v.node) == v.ty
}

proof fn lemma_trait_call(cx: Cx, st: St, traits: Seq<Seq<char>>, i: int, method: Seq<char>, args: Seq<Node>, arg_tys: Seq<Ty>, expected: Option<Ty>)
    ensures
        agrees(trait_call(cx, st, traits, i, method, args, arg_tys, expected).1),
    decreases traits.len() - i,
{
    if 0 <= i < traits.len() {
        if impl_target(cx, traits[i], method, arg_tys, expected) is None {
            lemma_trait_call(cx, st, traits, i + 1, method, args, arg_tys, expected);
        }
    }
}

proof fn lemma_binary(cx: Cx, st: St, op: BinaryOp, a: Val, b: Val)
    ensures
        agrees(binary(cx, st, op, a, b).1),
{
    match op {
        BinaryOp::Gt => {
            let v = swapped(cx, st, a, b, false).1;
            lemma_swapped(v.node);
        },
        BinaryOp::Le => {
            let v = swapped(cx, st, a, b, true).1;
            lemma_swapped(v.node);
        },
        BinaryOp::Ne => {},
        BinaryOp::Ge => {},
        _ => {
            if let Some(i) = super::tables::operator_of(cx.operators, op) {
                lemma_trait_call(
                    cx,
                    st,
                    seq![cx.operators[i as int].trait_name@],
                    0,
                    cx.operators[i as int].method@,
                    seq![a.node, b.node],
                    seq![a.ty, b.ty],
                    None,
                );
            }
        },
    }
}

proof fn lemma_swapped(e: Node)
    ensures
        e matches Node::Let { name, next, .. } && is_operand(name) ==> (compares_to_bool(e)
            ==> node_ty(e) == Ty::Bool),
{
}

proof fn lemma_named(cx: Cx, scope: Seq<Bind>, name: Seq<char>)
    ensures
        agrees(named_value(cx, scope, name)),
{
}

proof fn lemma_path(cx: Cx, head: Val, segments: Seq<Seq<char>>, n: nat)
    requires
        agrees(head),
    ensures
        agrees(field_path(cx, head, segments, n)),
    decreases n,
{
    if n > 1 {
        lemma_path(cx, head, segments, (n - 1) as nat);
    }
}

proof fn lemma_record(f: Fields, i: int, next: Node)
    ensures
        node_ty(bound_fields(f, i, next)) == node_ty(next),
    decreases f.vals.len() - i,
{
    if 0 <= i < f.vals.len() {
        lemma_record(f, i + 1, next);
    }
}

proof fn lemma_target(cx: Cx, st: St, target: Target, args: Seq<Node>, arg_tys: Seq<Ty>, expected: Option<Ty>)
    ensures
        agrees(target_call(cx, st, target, args, arg_tys, expected).1),
{
    if let Target::Trait(traits, method) = target {
        lemma_trait_call(cx, st, traits, 0, method, args, arg_tys, expected);
    }
}

proof fn lemma_call(cx: Cx, st: St, scope: Seq<Bind>, e: Expr, expected: Option<Ty>, test: bool)
    ensures
        agrees(lower_call(cx, st, scope, e, expected, test).1),
{
    assert forall|done: St, target: Target, args: Seq<Node>, arg_tys: Seq<Ty>| agrees(
        #[trigger] target_call(cx, done, target, args, arg_tys, expected).1,
    ) by {
        lemma_target(cx, done, target, args, arg_tys, expected);
    }
}

proof fn lemma_site(cx: Cx, st: St, v: Val)
    requires
        agrees(v),
    ensures
        agrees(test_site(cx, st, v).1),
{
}

/// The type that lowering notes of an expression is the type of what it is lowered
/// to, wherever a comparison with swapped operands gives a `Bool`.
pub proof fn lowered_types_agree(cx: Cx, st: St, scope: Seq<Bind>, e: Expr, expected: Option<Ty>, test: bool)
    ensures
        agrees(lower_expr(cx, st, scope, e, expected, test).1),
    decreases e, 3nat, 0int,
{
    match e {
        Expr::Var(name, _) => lemma_named(cx, scope, name@),
        Expr::Path { segments, .. } => {
            let all = texts(segments@);
            if all.len() > 0 && crate::subst::lookup(scope, all[0]) is Some {
                let ty = crate::subst::lookup(scope, all[0])->Some_0;
                let head = Val { node: Node::Var { name: all[0], ty }, ty };
                lemma_path(cx, head, all, all.len());
            }
        },
        Expr::Array(elements, _) => {
            assert(agrees(lower_array(cx, st, scope, elements@, None, test).1));
        },
        Expr::RecordLiteral { name, fields, .. } => {
            if let Some(i) = super::tables::record_named(cx.program.records@, name@) {
                let d = cx.program.records@[i as int];
                let (done, f) = super::expr::lower_fields(
                    cx,
                    st,
                    scope,
                    fields@,
                    fields@.len(),
                    d,
                    test,
                );
                let ty = record_value(name@, fields@, d, f).ty;
                lemma_record(
                    f,
                    0,
                    Node::RecordValue { ty, fields: stored(fields@, d, f) },
                );
            }
        },
        Expr::Call { .. } => {
            lemma_call(cx, st, scope, e, expected, test);
            let (done, v) = lower_call(cx, st, scope, e, expected, test);
            lemma_site(cx, done, v);
        },
        Expr::Fn { params, .. } => {
            assert(bind_tys(param_scope(params@)) =~= param_tys(params@));
        },
        Expr::Binary { op, left, right, .. } => {
            let (s1, a) = lower_expr(cx, st, scope, *left, None, test);
            let (s2, b) = lower_expr(cx, s1, scope, *right, None, test);
            lemma_binary(cx, s2, op, a, b);
            let (done, v) = binary(cx, s2, op, a, b);
            lemma_site(cx, done, v);
        },
        Expr::Block(block) => lowered_blocks_agree(
            cx,
            st,
            scope,
            block.items@,
            0,
            expected,
            test,
        ),
        _ => {},
    }
}

/// The type that lowering notes of a block is the type of what it is lowered to,
/// wherever a comparison with swapped operands gives a `Bool`.
pub proof fn lowered_blocks_agree(cx: Cx, st: St, scope: Seq<Bind>, items: Seq<BlockItem>, i: int, expected: Option<Ty>, test: bool)
    ensures
        agrees(lower_items(cx, st, scope, items, i, expected, test).1),
    decreases items, 2nat, items.len() - i,
{
    if 0 <= i < items.len() {
        match items[i] {
            BlockItem::Expr(e) => {
                if i + 1 == items.len() {
                    lowered_types_agree(cx, st, scope, e, expected, test);
                } else {
                    let (s1, v) = lower_expr(cx, st, scope, e, None, test);
                    lowered_blocks_agree(cx, s1, scope, items, i + 1, expected, test);
                }
            },
            BlockItem::Let { name, ty, value, .. } => {
                let annotated = match crate::types::opt_ty(ty) {
                    Some(t) => Some(super::calls::applied(cx, t)),
                    None => None,
                };
                let (s1, v) = lower_bound(cx, st, scope, value, annotated, test);
                let value_ty = match annotated {
                    Some(t) => t,
                    None => v.ty,
                };
                lowered_blocks_agree(
                    cx,
                    s1,
                    scope.push(Bind { name: name@, ty: value_ty }),
                    items,
                    i + 1,
                    expected,
                    test,
                );
            },
        }
    }
}

} // verus!
