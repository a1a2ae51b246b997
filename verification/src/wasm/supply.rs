//! The tables of a module hold whatever its code asks them for: every literal is
//! interned, the signature of every indirect call is declared, and every shape
//! that is allocated has its drop function.

use vstd::prelude::*;

use super::data::{literals, string_values};
use super::layout::{position, type_sig, Sig};
use super::module::{
    call_sigs, function_sigs, is_direct, lambda_nodes, lambda_sigs, module_cx, with_sig,
};
use super::pieces::Cx;
use super::shapes::{
    array_shape, closure_shape, drops_of, mangled, pointer_mask, with_node, with_shape, Drops,
    Shape,
};
use crate::ir::{node_ty, FnNode, Node};
use crate::ir_walk::{first_occurrences_are_the_members, preorder_program};
use crate::types::Ty;

verus! {

/// The shape that an expression allocates, if it allocates one.
pub open spec fn allocated(e: Node) -> Option<Shape> {
    match e {
        Node::Array { elem_ty, .. } => Some(array_shape(elem_ty)),
        Node::Intrinsic { name, ret, .. } => match ret {
            Ty::Array(elem) => if name == "array_push"@ {
                Some(array_shape(*elem))
            } else {
                None
            },
            _ => None,
        },
        Node::EnumValue { ty, .. } => Some(Shape::Enum(mangled(ty))),
        Node::RecordValue { fields, .. } => Some(Shape::Record { mask: pointer_mask(fields) }),
        Node::Fn { captures, .. } => Some(closure_shape(captures)),
        Node::FunctionRef { .. } => Some(Shape::Plain { total: 16 }),
        _ => None,
    }
}

/// Whether the tables hold what the code of an expression asks them for.
pub open spec fn is_supplied(cx: Cx, e: Node) -> bool {
    &&& e matches Node::String(value) ==> position(cx.strings, value) is Some
    &&& e matches Node::Call { callee, .. } ==> (node_ty(*callee) matches Ty::Function(f)
        ==> is_direct(cx.functions, *callee) || position(cx.sigs, type_sig(f)) is Some)
    &&& allocated(e) matches Some(shape) ==> position(cx.drops.keys, shape) is Some
}

proof fn lemma_found<T>(s: Seq<T>, x: T)
    requires
        s.contains(x),
    ensures
        position(s, x) is Some,
    decreases s.len(),
{
    let k = choose|k: int| 0 <= k < s.len() && s[k] == x;
    if k < s.len() - 1 {
        assert(s.drop_last()[k] == x);
        lemma_found(s.drop_last(), x);
    }
}

proof fn lemma_still_found<T>(s: Seq<T>, x: T, y: T)
    ensures
        position(s, x) is Some ==> position(s.push(y), x) is Some,
        position(s.push(y), y) is Some,
{
    assert(s.push(y).drop_last() =~= s);
}

proof fn lemma_strings(s: Seq<Node>, i: int, value: Seq<char>)
    requires
        0 <= i < s.len(),
        s[i] == Node::String(value),
    ensures
        string_values(s).contains(value),
    decreases s.len(),
{
    let all = string_values(s);
    if i < s.len() - 1 {
        lemma_strings(s.drop_last(), i, value);
        let before = string_values(s.drop_last());
        let k = choose|k: int| 0 <= k < before.len() && before[k] == value;
        assert(all[k] == value);
    } else {
        assert(all.last() == value);
    }
}

proof fn lemma_with_sig(s: Seq<Sig>, sig: Sig, x: Sig)
    ensures
        position(with_sig(s, sig), sig) is Some,
        position(s, x) is Some ==> position(with_sig(s, sig), x) is Some,
{
    lemma_still_found(s, x, sig);
    lemma_still_found(s, sig, sig);
}

proof fn lemma_sigs(sigs: Seq<Sig>, functions: Seq<Seq<char>>, s: Seq<Node>, i: int)
    requires
        0 <= i < s.len(),
    ensures
        s[i] matches Node::Call { callee, .. } ==> (node_ty(*callee) matches Ty::Function(f)
            ==> is_direct(functions, *callee) || position(
            call_sigs(sigs, functions, s),
            type_sig(f),
        ) is Some),
    decreases s.len(),
{
    let before = call_sigs(sigs, functions, s.drop_last());
    if i < s.len() - 1 {
        lemma_sigs(sigs, functions, s.drop_last(), i);
        if let Node::Call { callee, .. } = s[i] {
            if let Ty::Function(f) = node_ty(*callee) {
                if let Node::Call { callee: last, .. } = s.last() {
                    if let Ty::Function(g) = node_ty(*last) {
                        lemma_with_sig(before, type_sig(g), type_sig(f));
                    }
                }
            }
        }
    } else if let Node::Call { callee, .. } = s.last() {
        if let Ty::Function(f) = node_ty(*callee) {
            lemma_with_sig(before, type_sig(f), type_sig(f));
        }
    }
}

proof fn lemma_with_shape(t: Drops, shape: Shape, x: Shape)
    ensures
        position(with_shape(t, shape).keys, shape) is Some,
        position(t.keys, x) is Some ==> position(with_shape(t, shape).keys, x) is Some,
{
    lemma_still_found(t.keys, x, shape);
    lemma_still_found(t.keys, shape, shape);
}

proof fn lemma_with_node(t: Drops, e: Node, x: Shape)
    ensures
        allocated(e) matches Some(shape) ==> position(with_node(t, e).keys, shape) is Some,
        position(t.keys, x) is Some ==> position(with_node(t, e).keys, x) is Some,
{
    if let Some(shape) = allocated(e) {
        lemma_with_shape(t, shape, x);
    }
}

proof fn lemma_shapes(s: Seq<Node>, i: int)
    requires
        0 <= i < s.len(),
    ensures
        allocated(s[i]) matches Some(shape) ==> position(drops_of(s).keys, shape) is Some,
    decreases s.len(),
{
    let before = drops_of(s.drop_last());
    if let Some(shape) = allocated(s[i]) {
        lemma_with_node(before, s.last(), shape);
        if i < s.len() - 1 {
            lemma_shapes(s.drop_last(), i);
        }
    }
}

proof fn lemma_always(s: Seq<Node>)
    ensures
        position(drops_of(s).keys, Shape::Leak) is Some,
        position(drops_of(s).keys, Shape::String) is Some,
    decreases s.len(),
{
    if s.len() > 0 {
        lemma_always(s.drop_last());
        lemma_with_node(drops_of(s.drop_last()), s.last(), Shape::Leak);
        lemma_with_node(drops_of(s.drop_last()), s.last(), Shape::String);
    } else {
        let keys = drops_of(s).keys;
        assert(keys[0] == Shape::Leak && keys[1] == Shape::String);
        lemma_found(keys, Shape::Leak);
        lemma_found(keys, Shape::String);
    }
}

/// The tables of a module hold what the code of each of its expressions asks them
/// for, and the shapes of strings and of blocks that are never dropped.
pub proof fn tables_supply_the_code(p: Seq<FnNode>, i: int)
    requires
        0 <= i < preorder_program(p).len(),
    ensures
        is_supplied(module_cx(p), preorder_program(p)[i]),
        position(module_cx(p).drops.keys, Shape::Leak) is Some,
        position(module_cx(p).drops.keys, Shape::String) is Some,
{
    let s = preorder_program(p);
    let cx = module_cx(p);
    if let Node::String(value) = s[i] {
        lemma_strings(s, i, value);
        first_occurrences_are_the_members(string_values(s));
        lemma_found(literals(s), value);
    }
    lemma_sigs(
        lambda_sigs(
            function_sigs(p),
            lambda_nodes(s),
        ),
        cx.functions,
        s,
        i,
    );
    lemma_shapes(s, i);
    lemma_always(s);
}

} // verus!
