//! Every closure knows its own lambda: emitting an expression passes exactly the
//! lambdas that are in it, so the number that a closure is made with is that of
//! its lambda in the module.

use vstd::prelude::*;

use super::code::{
    arm_body, bind_payload, captured, closure, emit, emit_all, emit_arm, emit_arms, fn_count,
    inlined, intrinsic, lambdas_in, needed, pass_all, skip_all, store_all, tail_args, Inlined,
};
use super::module::{lambda_nodes, lambdas_before};
use super::pieces::{
    Cx, Em, SlotT, allocate, array_address, array_load, array_open, bind_field, bind_subject,
    block_end, bound, branch, bumped, call_closure, call_function, call_helper, call_named,
    capture, caught_by, closure_open, concat_end, concat_open, drop_local, drop_locals,
    enum_open, failed, field_load, find_slot, float, free_box, fresh, function_ref, get_local,
    hold, hold_closure, holding, if_open, instruction, integer, let_bind, load, local_id,
    managing, match_open, number, pass_argument, plus, push_copy, push_end, push_middle,
    push_open, push_retain, push_slot, put, putn, raise_error, raw, record_open,
    release_managed, return_error, scoped_to, set_local, skipping, slot_address, store,
    tag_test, try_close, try_open, uncaught, unwrap_result, variable, wrap_ok,
};
use crate::ir::{ArmNode, Bind, FnNode, Node, Pat};
use crate::ir_walk::{preorder, preorder_all, preorder_arm, preorder_arms, preorder_program};
use crate::strings::decimal;
use crate::types::Ty;
use super::layout::{wasm_ty, WasmTy};
use super::shapes::{pointer_mask, Shape};

verus! {

broadcast proof fn raw_keeps_count(st: Em, text: Seq<char>)
    ensures
        (#[trigger] raw(st, text)).next_lambda == st.next_lambda,
{
    reveal(raw);
}

broadcast proof fn put_keeps_count(st: Em, before: Seq<char>, text: Seq<char>)
    ensures
        (#[trigger] put(st, before, text)).next_lambda == st.next_lambda,
{
    reveal(put);
}

broadcast proof fn putn_keeps_count(st: Em, before: Seq<char>, n: nat)
    ensures
        (#[trigger] putn(st, before, n)).next_lambda == st.next_lambda,
{
    reveal(putn);
}

broadcast proof fn fresh_keeps_count(st: Em, ty: WasmTy)
    ensures
        (#[trigger] fresh(st, ty)).next_lambda == st.next_lambda,
{
    reveal(fresh);
}

broadcast proof fn bumped_keeps_count(st: Em)
    ensures
        (#[trigger] bumped(st)).next_lambda == st.next_lambda,
{
    reveal(bumped);
}

broadcast proof fn bound_keeps_count(st: Em, name: Seq<char>, slot: SlotT)
    ensures
        (#[trigger] bound(st, name, slot)).next_lambda == st.next_lambda,
{
    reveal(bound);
}

broadcast proof fn failed_keeps_count(st: Em, message: Seq<char>)
    ensures
        (#[trigger] failed(st, message)).next_lambda == st.next_lambda,
{
    reveal(failed);
}

broadcast proof fn caught_by_keeps_count(st: Em, label: Seq<char>)
    ensures
        (#[trigger] caught_by(st, label)).next_lambda == st.next_lambda,
{
    reveal(caught_by);
}

broadcast proof fn uncaught_keeps_count(st: Em)
    ensures
        (#[trigger] uncaught(st)).next_lambda == st.next_lambda,
{
    reveal(uncaught);
}

broadcast proof fn scoped_to_keeps_count(st: Em, mark: nat)
    ensures
        (#[trigger] scoped_to(st, mark)).next_lambda == st.next_lambda,
{
    reveal(scoped_to);
}

broadcast proof fn managing_keeps_count(st: Em, id: Seq<char>, name: Seq<char>)
    ensures
        (#[trigger] managing(st, id, name)).next_lambda == st.next_lambda,
{
    reveal(managing);
}

broadcast proof fn holding_keeps_count(st: Em, id: Seq<char>)
    ensures
        (#[trigger] holding(st, id)).next_lambda == st.next_lambda,
{
    reveal(holding);
}

broadcast group primitives_keep_count {
    raw_keeps_count,
    put_keeps_count,
    putn_keeps_count,
    fresh_keeps_count,
    bumped_keeps_count,
    bound_keeps_count,
    failed_keeps_count,
    caught_by_keeps_count,
    uncaught_keeps_count,
    scoped_to_keeps_count,
    managing_keeps_count,
    holding_keeps_count,
}

broadcast proof fn variable_keeps_count(st: Em, name: Seq<char>)
    ensures
        (#[trigger] variable(st, name)).next_lambda == st.next_lambda,
{
    broadcast use primitives_keep_count;
}

broadcast proof fn allocate_keeps_count(cx: Cx, st: Em, shape: Shape)
    ensures
        (#[trigger] allocate(cx, st, shape)).next_lambda == st.next_lambda,
{
    broadcast use primitives_keep_count;
}

broadcast proof fn drop_local_keeps_count(st: Em, id: Seq<char>)
    ensures
        (#[trigger] drop_local(st, id)).next_lambda == st.next_lambda,
{
    broadcast use primitives_keep_count;
}

broadcast proof fn drop_locals_keeps_count(st: Em, ids: Seq<Seq<char>>)
    ensures
        (#[trigger] drop_locals(st, ids)).next_lambda == st.next_lambda,
    decreases ids.len(),
{
    broadcast use primitives_keep_count, drop_local_keeps_count;

    if ids.len() > 0 {
        drop_locals_keeps_count(st, ids.drop_last());
    }
}

broadcast proof fn release_managed_keeps_count(st: Em, from: nat)
    ensures
        (#[trigger] release_managed(st, from)).next_lambda == st.next_lambda,
{
    broadcast use primitives_keep_count, drop_locals_keeps_count;
}

broadcast proof fn return_error_keeps_count(cx: Cx, st: Em)
    ensures
        (#[trigger] return_error(cx, st)).next_lambda == st.next_lambda,
{
    broadcast use primitives_keep_count, allocate_keeps_count, release_managed_keeps_count;
}

broadcast proof fn branch_keeps_count(st: Em, label: Seq<char>)
    ensures
        (#[trigger] branch(st, label)).next_lambda == st.next_lambda,
{
    broadcast use primitives_keep_count;
}

broadcast proof fn raise_error_keeps_count(cx: Cx, st: Em)
    ensures
        (#[trigger] raise_error(cx, st)).next_lambda == st.next_lambda,
{
    broadcast use primitives_keep_count, return_error_keeps_count, branch_keeps_count;
}

broadcast proof fn concat_open_keeps_count(st: Em)
    ensures
        (#[trigger] concat_open(st)).next_lambda == st.next_lambda,
{
    broadcast use primitives_keep_count;
}

broadcast proof fn set_local_keeps_count(st: Em, c: u64)
    ensures
        (#[trigger] set_local(st, c)).next_lambda == st.next_lambda,
{
    broadcast use primitives_keep_count;
}

broadcast proof fn get_local_keeps_count(st: Em, c: u64)
    ensures
        (#[trigger] get_local(st, c)).next_lambda == st.next_lambda,
{
    broadcast use primitives_keep_count;
}

broadcast proof fn concat_end_keeps_count(cx: Cx, st: Em, c: u64)
    ensures
        (#[trigger] concat_end(cx, st, c)).next_lambda == st.next_lambda,
{
    broadcast use primitives_keep_count, allocate_keeps_count;
}

broadcast proof fn array_address_keeps_count(st: Em, size: nat)
    ensures
        (#[trigger] array_address(st, size)).next_lambda == st.next_lambda,
{
    broadcast use primitives_keep_count;
}

broadcast proof fn load_keeps_count(st: Em, ty: WasmTy)
    ensures
        (#[trigger] load(st, ty)).next_lambda == st.next_lambda,
{
    broadcast use primitives_keep_count;
}

broadcast proof fn array_load_keeps_count(st: Em, elem_ty: Ty)
    ensures
        (#[trigger] array_load(st, elem_ty)).next_lambda == st.next_lambda,
{
    broadcast use primitives_keep_count, array_address_keeps_count, load_keeps_count;
}

broadcast proof fn store_keeps_count(st: Em, ty: WasmTy)
    ensures
        (#[trigger] store(st, ty)).next_lambda == st.next_lambda,
{
    broadcast use primitives_keep_count;
}

broadcast proof fn push_open_keeps_count(st: Em)
    ensures
        (#[trigger] push_open(st)).next_lambda == st.next_lambda,
{
    broadcast use primitives_keep_count;
}

broadcast proof fn push_copy_keeps_count(cx: Cx, st: Em, c: u64, elem_ty: Ty)
    ensures
        (#[trigger] push_copy(cx, st, c, elem_ty)).next_lambda == st.next_lambda,
{
    broadcast use primitives_keep_count, allocate_keeps_count;
}

broadcast proof fn push_retain_keeps_count(st: Em, c: u64, elem_ty: Ty)
    ensures
        (#[trigger] push_retain(st, c, elem_ty)).next_lambda == st.next_lambda,
{
    broadcast use primitives_keep_count;
}

broadcast proof fn push_slot_keeps_count(st: Em, c: u64, elem_ty: Ty)
    ensures
        (#[trigger] push_slot(st, c, elem_ty)).next_lambda == st.next_lambda,
{
    broadcast use primitives_keep_count;
}

broadcast proof fn push_middle_keeps_count(cx: Cx, st: Em, c: u64, elem_ty: Ty)
    ensures
        (#[trigger] push_middle(cx, st, c, elem_ty)).next_lambda == st.next_lambda,
{
    broadcast use primitives_keep_count, push_copy_keeps_count, push_retain_keeps_count, push_slot_keeps_count;
}

broadcast proof fn push_end_keeps_count(st: Em, c: u64, elem_ty: Ty)
    ensures
        (#[trigger] push_end(st, c, elem_ty)).next_lambda == st.next_lambda,
{
    broadcast use primitives_keep_count, store_keeps_count;
}

broadcast proof fn record_open_keeps_count(cx: Cx, st: Em, mask: Seq<bool>)
    ensures
        (#[trigger] record_open(cx, st, mask)).next_lambda == st.next_lambda,
{
    broadcast use primitives_keep_count, allocate_keeps_count;
}

broadcast proof fn enum_open_keeps_count(cx: Cx, st: Em, ty: Ty, tag: u32, n: nat)
    ensures
        (#[trigger] enum_open(cx, st, ty, tag, n)).next_lambda == st.next_lambda,
{
    broadcast use primitives_keep_count, allocate_keeps_count;
}

broadcast proof fn array_open_keeps_count(cx: Cx, st: Em, elem_ty: Ty, n: nat)
    ensures
        (#[trigger] array_open(cx, st, elem_ty, n)).next_lambda == st.next_lambda,
{
    broadcast use primitives_keep_count, allocate_keeps_count;
}

broadcast proof fn slot_address_keeps_count(st: Em, c: u64, at: nat)
    ensures
        (#[trigger] slot_address(st, c, at)).next_lambda == st.next_lambda,
{
    broadcast use primitives_keep_count;
}

broadcast proof fn match_open_keeps_count(st: Em, c: u64, ty: Ty)
    ensures
        (#[trigger] match_open(st, c, ty)).next_lambda == st.next_lambda,
{
    broadcast use primitives_keep_count;
}

broadcast proof fn block_end_keeps_count(st: Em)
    ensures
        (#[trigger] block_end(st)).next_lambda == st.next_lambda,
{
    broadcast use primitives_keep_count;
}

broadcast proof fn tag_test_keeps_count(st: Em, subject: Seq<char>, tag: u32)
    ensures
        (#[trigger] tag_test(st, subject, tag)).next_lambda == st.next_lambda,
{
    broadcast use primitives_keep_count;
}

broadcast proof fn bind_field_keeps_count(st: Em, subject: Seq<char>, name: Seq<char>, ty: Ty, at: nat)
    ensures
        (#[trigger] bind_field(st, subject, name, ty, at)).next_lambda == st.next_lambda,
{
    broadcast use primitives_keep_count;
}

broadcast proof fn bind_subject_keeps_count(st: Em, subject: Seq<char>, name: Seq<char>, ty: Ty)
    ensures
        (#[trigger] bind_subject(st, subject, name, ty)).next_lambda == st.next_lambda,
{
    broadcast use primitives_keep_count;
}

broadcast proof fn wrap_ok_keeps_count(cx: Cx, st: Em, ret: Ty)
    ensures
        (#[trigger] wrap_ok(cx, st, ret)).next_lambda == st.next_lambda,
{
    broadcast use primitives_keep_count, allocate_keeps_count;
}

broadcast proof fn free_box_keeps_count(st: Em, r: Seq<char>)
    ensures
        (#[trigger] free_box(st, r)).next_lambda == st.next_lambda,
{
    broadcast use primitives_keep_count;
}

broadcast proof fn unwrap_result_keeps_count(cx: Cx, st: Em, ty: Ty)
    ensures
        (#[trigger] unwrap_result(cx, st, ty)).next_lambda == st.next_lambda,
{
    broadcast use primitives_keep_count, raise_error_keeps_count, free_box_keeps_count;
}

broadcast proof fn try_open_keeps_count(st: Em, ty: Ty)
    ensures
        (#[trigger] try_open(st, ty)).next_lambda == st.next_lambda,
{
    broadcast use primitives_keep_count;
}

broadcast proof fn try_close_keeps_count(st: Em, n: u64, mark: nat)
    ensures
        (#[trigger] try_close(st, n, mark)).next_lambda == st.next_lambda,
{
    broadcast use primitives_keep_count, release_managed_keeps_count;
}

broadcast proof fn function_ref_keeps_count(cx: Cx, st: Em, index: nat)
    ensures
        (#[trigger] function_ref(cx, st, index)).next_lambda == st.next_lambda,
{
    broadcast use primitives_keep_count, allocate_keeps_count;
}

broadcast proof fn capture_keeps_count(st: Em, c: u64, bind: Bind, at: nat)
    ensures
        (#[trigger] capture(st, c, bind, at)).next_lambda == st.next_lambda,
{
    broadcast use primitives_keep_count, variable_keeps_count, store_keeps_count, slot_address_keeps_count;
}

broadcast proof fn closure_open_keeps_count(cx: Cx, st: Em, captures: Seq<Bind>, index: nat)
    ensures
        (#[trigger] closure_open(cx, st, captures, index)).next_lambda == st.next_lambda,
{
    broadcast use primitives_keep_count, allocate_keeps_count;
}

broadcast proof fn call_closure_keeps_count(st: Em, c: u64, sig: nat)
    ensures
        (#[trigger] call_closure(st, c, sig)).next_lambda == st.next_lambda,
{
    broadcast use primitives_keep_count;
}

broadcast proof fn hold_closure_keeps_count(st: Em)
    ensures
        (#[trigger] hold_closure(st)).next_lambda == st.next_lambda,
{
    broadcast use primitives_keep_count;
}

broadcast proof fn let_bind_keeps_count(st: Em, name: Seq<char>, ty: Ty)
    ensures
        (#[trigger] let_bind(st, name, ty)).next_lambda == st.next_lambda,
{
    broadcast use primitives_keep_count;
}

broadcast proof fn pass_argument_keeps_count(st: Em, temp: Seq<char>, i: nat)
    ensures
        (#[trigger] pass_argument(st, temp, i)).next_lambda == st.next_lambda,
{
    broadcast use primitives_keep_count;
}

broadcast proof fn hold_keeps_count(st: Em, ty: WasmTy)
    ensures
        (#[trigger] hold(st, ty)).next_lambda == st.next_lambda,
{
    broadcast use primitives_keep_count;
}

broadcast proof fn if_open_keeps_count(st: Em, ty: Ty)
    ensures
        (#[trigger] if_open(st, ty)).next_lambda == st.next_lambda,
{
    broadcast use primitives_keep_count;
}

broadcast proof fn field_load_keeps_count(st: Em, index: u32, ty: Ty)
    ensures
        (#[trigger] field_load(st, index, ty)).next_lambda == st.next_lambda,
{
    broadcast use primitives_keep_count, load_keeps_count;
}

broadcast proof fn call_named_keeps_count(st: Em, name: Seq<char>)
    ensures
        (#[trigger] call_named(st, name)).next_lambda == st.next_lambda,
{
    broadcast use primitives_keep_count;
}

broadcast proof fn call_helper_keeps_count(st: Em, name: Seq<char>)
    ensures
        (#[trigger] call_helper(st, name)).next_lambda == st.next_lambda,
{
    broadcast use primitives_keep_count;
}

broadcast proof fn call_function_keeps_count(st: Em, name: Seq<char>)
    ensures
        (#[trigger] call_function(st, name)).next_lambda == st.next_lambda,
{
    broadcast use primitives_keep_count;
}

broadcast proof fn instruction_keeps_count(st: Em, text: Seq<char>)
    ensures
        (#[trigger] instruction(st, text)).next_lambda == st.next_lambda,
{
    broadcast use primitives_keep_count;
}

broadcast proof fn number_keeps_count(st: Em, n: nat)
    ensures
        (#[trigger] number(st, n)).next_lambda == st.next_lambda,
{
    broadcast use primitives_keep_count;
}

broadcast proof fn float_keeps_count(st: Em, text: Seq<char>)
    ensures
        (#[trigger] float(st, text)).next_lambda == st.next_lambda,
{
    broadcast use primitives_keep_count;
}

broadcast proof fn integer_keeps_count(st: Em, value: i32)
    ensures
        (#[trigger] integer(st, value)).next_lambda == st.next_lambda,
{
    broadcast use primitives_keep_count;
}

broadcast group pieces_keep_count {
    primitives_keep_count,
    variable_keeps_count,
    allocate_keeps_count,
    drop_local_keeps_count,
    drop_locals_keeps_count,
    release_managed_keeps_count,
    return_error_keeps_count,
    branch_keeps_count,
    raise_error_keeps_count,
    concat_open_keeps_count,
    set_local_keeps_count,
    get_local_keeps_count,
    concat_end_keeps_count,
    array_address_keeps_count,
    load_keeps_count,
    array_load_keeps_count,
    store_keeps_count,
    push_open_keeps_count,
    push_copy_keeps_count,
    push_retain_keeps_count,
    push_slot_keeps_count,
    push_middle_keeps_count,
    push_end_keeps_count,
    record_open_keeps_count,
    enum_open_keeps_count,
    array_open_keeps_count,
    slot_address_keeps_count,
    match_open_keeps_count,
    block_end_keeps_count,
    tag_test_keeps_count,
    bind_field_keeps_count,
    bind_subject_keeps_count,
    wrap_ok_keeps_count,
    free_box_keeps_count,
    unwrap_result_keeps_count,
    try_open_keeps_count,
    try_close_keeps_count,
    function_ref_keeps_count,
    capture_keeps_count,
    closure_open_keeps_count,
    call_closure_keeps_count,
    hold_closure_keeps_count,
    let_bind_keeps_count,
    pass_argument_keeps_count,
    hold_keeps_count,
    if_open_keeps_count,
    field_load_keeps_count,
    call_named_keeps_count,
    call_helper_keeps_count,
    call_function_keeps_count,
    instruction_keeps_count,
    number_keeps_count,
    float_keeps_count,
    integer_keeps_count,
}

proof fn lemma_concat(a: Seq<Node>, b: Seq<Node>)
    ensures
        lambdas_in(a + b) == lambdas_in(a) + lambdas_in(b),
    decreases b.len(),
{
    if b.len() == 0 {
        assert(a + b =~= a);
    } else {
        lemma_concat(a, b.drop_last());
        assert((a + b).drop_last() =~= a + b.drop_last());
        assert((a + b).last() == b.last());
    }
}

/// How many lambdas there are in some expressions, at any depth.
pub open spec fn all_count(s: Seq<Node>) -> nat {
    lambdas_in(preorder_all(s))
}

/// How many lambdas there are in an arm, at any depth.
pub open spec fn arm_count(arm: ArmNode) -> nat {
    lambdas_in(preorder_arm(arm))
}

/// How many lambdas there are in some arms, at any depth.
pub open spec fn arms_count(s: Seq<ArmNode>) -> nat {
    lambdas_in(preorder_arms(s))
}

proof fn lemma_all(s: Seq<Node>)
    ensures
        all_count(s) == if s.len() == 0 {
            0
        } else {
            all_count(s.drop_last()) + fn_count(s.last())
        },
{
    if s.len() > 0 {
        lemma_concat(preorder_all(s.drop_last()), preorder(s.last()));
    }
}

proof fn lemma_arms(s: Seq<ArmNode>)
    ensures
        arms_count(s) == if s.len() == 0 {
            0
        } else {
            arms_count(s.drop_last()) + arm_count(s.last())
        },
{
    if s.len() > 0 {
        lemma_concat(preorder_arms(s.drop_last()), preorder_arm(s.last()));
    }
}

proof fn lemma_arm(arm: ArmNode)
    ensures
        arm_count(arm) == fn_count(*arm.body) + match arm.guard {
            Some(guard) => fn_count(*guard),
            None => 0,
        },
{
    if let Some(guard) = arm.guard {
        lemma_concat(preorder(*guard), preorder(*arm.body));
    }
}

proof fn lemma_all_concat(a: Seq<Node>, b: Seq<Node>)
    ensures
        all_count(a + b) == all_count(a) + all_count(b),
    decreases b.len(),
{
    lemma_all(b);
    lemma_all(a + b);
    if b.len() == 0 {
        assert(a + b =~= a);
    } else {
        lemma_all_concat(a, b.drop_last());
        assert((a + b).drop_last() =~= a + b.drop_last());
        assert((a + b).last() == b.last());
    }
}

/// The first arguments and the rest.
proof fn lemma_args(s: Seq<Node>)
    ensures
        s.len() >= 1 ==> all_count(s) == fn_count(s[0]) + all_count(s.skip(1)),
        s.len() >= 2 ==> all_count(s) == fn_count(s[0]) + fn_count(s[1]) + all_count(s.skip(2)),
        s.len() >= 2 ==> all_count(s.take(2)) == fn_count(s[0]) + fn_count(s[1]),
{
    if s.len() >= 1 {
        let one = seq![s[0]];
        lemma_all(one);
        lemma_all(Seq::empty());
        assert(one.drop_last() =~= Seq::<Node>::empty());
        lemma_all_concat(one, s.skip(1));
        assert(s =~= one + s.skip(1));
        if s.len() >= 2 {
            let two = s.take(2);
            lemma_all(two);
            assert(two.drop_last() =~= one);
            lemma_all_concat(two, s.skip(2));
            assert(s =~= two + s.skip(2));
        }
    }
}

/// What the lambdas of an expression are: it itself, if it is one, and those of
/// its parts.
proof fn lemma_parts(e: Node)
    ensures
        fn_count(e) == match e {
            Node::Array { elems, .. } => all_count(elems),
            Node::Let { value, next, .. } => fn_count(*value) + fn_count(*next),
            Node::Call { callee, args, .. } => fn_count(*callee) + all_count(args),
            Node::Platform { args, .. } => all_count(args),
            Node::Intrinsic { args, .. } => all_count(args),
            Node::TailSelfCall { args, .. } => all_count(args),
            Node::If { cond, then, els, .. } => fn_count(*cond) + fn_count(*then) + fn_count(
                *els,
            ),
            Node::Fn { body, .. } => 1 + fn_count(*body),
            Node::Binary { left, right, .. } => fn_count(*left) + fn_count(*right),
            Node::Concat { left, right } => fn_count(*left) + fn_count(*right),
            Node::EnumValue { payload, .. } => all_count(payload),
            Node::RecordValue { fields, .. } => all_count(fields),
            Node::FieldAccess { target, .. } => fn_count(*target),
            Node::Match { scrutinee, arms, .. } => fn_count(*scrutinee) + arms_count(arms),
            Node::Try { body, arms, .. } => fn_count(*body) + arms_count(arms),
            Node::Throw { value } => fn_count(*value),
            Node::Question { value, .. } => fn_count(*value),
            Node::Panic { message } => fn_count(*message),
            Node::CharFromCode(value) => fn_count(*value),
            Node::StringFromChar(value) => fn_count(*value),
            Node::Retain { value } => fn_count(*value),
            Node::Release { next, .. } => fn_count(*next),
            _ => 0,
        },
{
    let one = seq![e];
    let rest = preorder(e).skip(1);
    assert(preorder(e) =~= one + rest);
    lemma_concat(one, rest);
    lemma_concat(Seq::empty(), one);
    assert(one.drop_last() =~= Seq::<Node>::empty());
    assert(lambdas_in(Seq::<Node>::empty()) == 0);
    assert(lambdas_in(one) == if e is Fn {
        1nat
    } else {
        0nat
    });
    match e {
        Node::Array { elems, .. } => {
            assert(rest =~= preorder_all(elems));
        },
        Node::Let { value, next, .. } => {
            assert(rest =~= preorder(*value) + preorder(*next));
            lemma_concat(preorder(*value), preorder(*next));
        },
        Node::Call { callee, args, .. } => {
            assert(rest =~= preorder(*callee) + preorder_all(args));
            lemma_concat(preorder(*callee), preorder_all(args));
        },
        Node::Platform { args, .. } => {
            assert(rest =~= preorder_all(args));
        },
        Node::Intrinsic { args, .. } => {
            assert(rest =~= preorder_all(args));
        },
        Node::TailSelfCall { args, .. } => {
            assert(rest =~= preorder_all(args));
        },
        Node::If { cond, then, els, .. } => {
            assert(rest =~= preorder(*cond) + preorder(*then) + preorder(*els));
            lemma_concat(preorder(*cond), preorder(*then));
            lemma_concat(preorder(*cond) + preorder(*then), preorder(*els));
        },
        Node::Fn { body, .. } => {
            assert(rest =~= preorder(*body));
        },
        Node::Binary { left, right, .. } => {
            assert(rest =~= preorder(*left) + preorder(*right));
            lemma_concat(preorder(*left), preorder(*right));
        },
        Node::Concat { left, right } => {
            assert(rest =~= preorder(*left) + preorder(*right));
            lemma_concat(preorder(*left), preorder(*right));
        },
        Node::EnumValue { payload, .. } => {
            assert(rest =~= preorder_all(payload));
        },
        Node::RecordValue { fields, .. } => {
            assert(rest =~= preorder_all(fields));
        },
        Node::FieldAccess { target, .. } => {
            assert(rest =~= preorder(*target));
        },
        Node::Match { scrutinee, arms, .. } => {
            assert(rest =~= preorder(*scrutinee) + preorder_arms(arms));
            lemma_concat(preorder(*scrutinee), preorder_arms(arms));
        },
        Node::Try { body, arms, .. } => {
            assert(rest =~= preorder(*body) + preorder_arms(arms));
            lemma_concat(preorder(*body), preorder_arms(arms));
        },
        Node::Throw { value } => {
            assert(rest =~= preorder(*value));
        },
        Node::Question { value, .. } => {
            assert(rest =~= preorder(*value));
        },
        Node::Panic { message } => {
            assert(rest =~= preorder(*message));
        },
        Node::CharFromCode(value) => {
            assert(rest =~= preorder(*value));
        },
        Node::StringFromChar(value) => {
            assert(rest =~= preorder(*value));
        },
        Node::Retain { value } => {
            assert(rest =~= preorder(*value));
        },
        Node::Release { next, .. } => {
            assert(rest =~= preorder(*next));
        },
        _ => {
            assert(rest =~= Seq::<Node>::empty());
        },
    }
}

proof fn lemma_skipping(st: Em, n: nat)
    ensures
        skipping(st, n).next_lambda == plus(st.next_lambda, n),
{
    reveal(skipping);
}

proof fn lemma_skip_all(st: Em, s: Seq<Node>)
    requires
        st.next_lambda <= usize::MAX,
    ensures
        skip_all(st, s).next_lambda == plus(st.next_lambda, all_count(s)),
    decreases s.len(),
{
    lemma_all(s);
    if s.len() > 0 {
        lemma_skip_all(st, s.drop_last());
        lemma_skipping(skip_all(st, s.drop_last()), fn_count(s.last()));
    }
}

proof fn lemma_captured(st: Em, c: u64, captures: Seq<Bind>, n: nat)
    ensures
        captured(st, c, captures, n).next_lambda == st.next_lambda,
    decreases n,
{
    broadcast use pieces_keep_count;

    if n > 0 {
        lemma_captured(st, c, captures, (n - 1) as nat);
    }
}

proof fn lemma_bind_payload(st: Em, subject: Seq<char>, bindings: Seq<Option<Bind>>, n: nat)
    ensures
        bind_payload(st, subject, bindings, n).next_lambda == st.next_lambda,
    decreases n,
{
    broadcast use pieces_keep_count;

    if n > 0 {
        lemma_bind_payload(st, subject, bindings, (n - 1) as nat);
    }
}

proof fn lemma_pass_all(st: Em, temps: Seq<Seq<char>>, n: nat)
    ensures
        pass_all(st, temps, n).next_lambda == st.next_lambda,
    decreases n,
{
    broadcast use pieces_keep_count;

    if n > 0 {
        lemma_pass_all(st, temps, (n - 1) as nat);
    }
}

/// Whether a state is past `n` lambdas more than another.
spec fn past(st: Em, next: Em, n: nat) -> bool {
    next.next_lambda == plus(st.next_lambda, n) && next.next_lambda <= usize::MAX
}

proof fn lemma_closure(cx: Cx, st: Em, captures: Seq<Bind>, n: nat)
    requires
        st.next_lambda <= usize::MAX,
    ensures
        past(st, closure(cx, st, captures, n), n),
{
    broadcast use pieces_keep_count;

    let c = st.counter;
    let opened = closure_open(cx, st, captures, cx.functions.len() + st.next_lambda);
    lemma_captured(opened, c, captures, captures.len());
    lemma_skipping(get_local(captured(opened, c, captures, captures.len()), c), n);
}

/// Emitting an expression passes exactly the lambdas that are in it.
pub proof fn emitting_passes_the_lambdas(cx: Cx, st: Em, e: Node)
    requires
        st.next_lambda <= usize::MAX,
    ensures
        emit(cx, st, e).next_lambda == plus(st.next_lambda, fn_count(e)),
        emit(cx, st, e).next_lambda <= usize::MAX,
    decreases e, 1nat,
{
    lemma_parts(e);
    match e {
        Node::Fn { captures, .. } => lemma_closure(cx, st, captures, fn_count(e)),
        Node::Panic { message } => {
            broadcast use pieces_keep_count;

            lemma_skipping(instruction(st, "unreachable"@), fn_count(*message));
        },
        Node::Binary { left, right, .. } => {
            broadcast use pieces_keep_count;

            emitting_passes_the_lambdas(cx, st, *left);
            emitting_passes_the_lambdas(cx, emit(cx, st, *left), *right);
        },
        Node::Let { name, value_ty, value, next } => {
            broadcast use pieces_keep_count;

            emitting_passes_the_lambdas(cx, st, *value);
            let bound = let_bind(emit(cx, st, *value), name, value_ty);
            emitting_passes_the_lambdas(cx, bound, *next);
        },
        Node::Call { .. } => lemma_call(cx, st, e),
        Node::Platform { args, .. } => {
            broadcast use pieces_keep_count;

            lemma_emit_all(cx, st, args);
        },
        Node::Intrinsic { name, args, ret } => lemma_intrinsic(cx, st, name, args, ret),
        Node::CharFromCode(value) => emitting_passes_the_lambdas(cx, st, *value),
        Node::StringFromChar(value) => {
            broadcast use pieces_keep_count;

            emitting_passes_the_lambdas(cx, st, *value);
        },
        Node::Concat { left, right } => {
            broadcast use pieces_keep_count;

            emitting_passes_the_lambdas(cx, concat_open(st), *left);
            emitting_passes_the_lambdas(
                cx,
                set_local(emit(cx, concat_open(st), *left), st.counter),
                *right,
            );
        },
        Node::Array { elem_ty, elems } => {
            broadcast use pieces_keep_count;

            lemma_store_all(
                cx,
                array_open(cx, st, elem_ty, elems.len()),
                st.counter,
                elems,
                4,
                wasm_ty(elem_ty).bytes(),
                Some(wasm_ty(elem_ty)),
            );
        },
        Node::EnumValue { ty, tag, payload, .. } => {
            broadcast use pieces_keep_count;

            lemma_store_all(
                cx,
                enum_open(cx, st, ty, tag, payload.len()),
                st.counter,
                payload,
                8,
                8,
                None,
            );
        },
        Node::RecordValue { fields, .. } => {
            broadcast use pieces_keep_count;

            lemma_store_all(
                cx,
                record_open(cx, st, pointer_mask(fields)),
                st.counter,
                fields,
                0,
                8,
                None,
            );
        },
        Node::FieldAccess { target, .. } => {
            broadcast use pieces_keep_count;

            emitting_passes_the_lambdas(cx, st, *target);
        },
        Node::Match { scrutinee, arms, ty } => {
            broadcast use pieces_keep_count;

            let held = emit(cx, fresh(st, WasmTy::I32), *scrutinee);
            emitting_passes_the_lambdas(cx, fresh(st, WasmTy::I32), *scrutinee);
            lemma_emit_arms(
                cx,
                match_open(held, st.counter, ty),
                local_id(st.counter),
                arms,
                "$match_"@ + decimal(held.counter as nat),
            );
        },
        Node::If { cond, then, els, ty } => {
            broadcast use pieces_keep_count;

            emitting_passes_the_lambdas(cx, st, *cond);
            let opened = if_open(emit(cx, st, *cond), ty);
            emitting_passes_the_lambdas(cx, opened, *then);
            let other = instruction(emit(cx, opened, *then), "else"@);
            emitting_passes_the_lambdas(cx, other, *els);
        },
        Node::Throw { value } => {
            broadcast use pieces_keep_count;

            emitting_passes_the_lambdas(cx, st, *value);
        },
        Node::Try { .. } => lemma_try(cx, st, e),
        Node::Question { value, .. } => emitting_passes_the_lambdas(cx, st, *value),
        Node::TailSelfCall { args, .. } => {
            broadcast use pieces_keep_count;

            lemma_tail_args(cx, st, args);
            let (held, temps) = tail_args(cx, st, args);
            lemma_pass_all(held, temps, temps.len());
        },
        Node::Retain { value } => {
            broadcast use pieces_keep_count;

            emitting_passes_the_lambdas(cx, st, *value);
        },
        Node::Release { name, next, .. } => {
            broadcast use pieces_keep_count;

            lemma_skipping(st, fn_count(*next));
            if let Some(SlotT::Local(id)) = find_slot(st.scope, name) {
                emitting_passes_the_lambdas(cx, drop_local(st, id), *next);
            }
        },
        _ => {
            broadcast use pieces_keep_count;

        },
    }
}

proof fn lemma_try(cx: Cx, st: Em, e: Node)
    requires
        e is Try,
        st.next_lambda <= usize::MAX,
    ensures
        past(st, emit(cx, st, e), fn_count(e)),
    decreases e, 0nat,
{
    broadcast use pieces_keep_count;

    lemma_parts(e);
    if let Node::Try { body, arms, ty, err_name } = e {
        emitting_passes_the_lambdas(cx, try_open(st, ty), *body);
        let tried = emit(cx, try_open(st, ty), *body);
        let err = local_id(tried.counter);
        let caught = try_close(tried, st.counter, st.managed.len());
        let named = match err_name {
            Some(name) => bound(holding(caught, err), name, SlotT::Local(err)),
            None => caught,
        };
        assert(named.next_lambda == tried.next_lambda);
        lemma_emit_arms(cx, named, err, arms, "$try_"@ + decimal(st.counter as nat));
    }
}

proof fn lemma_call(cx: Cx, st: Em, e: Node)
    requires
        e is Call,
        st.next_lambda <= usize::MAX,
    ensures
        past(st, emit(cx, st, e), fn_count(e)),
    decreases e, 0nat,
{
    broadcast use pieces_keep_count;

    lemma_parts(e);
    if let Node::Call { callee, args, ret } = e {
        lemma_parts(*callee);
        lemma_emit_all(cx, number(st, 0), args);
        emitting_passes_the_lambdas(cx, st, *callee);
        let held = emit(cx, st, *callee);
        lemma_emit_all(cx, hold_closure(held), args);
        lemma_skipping(st, fn_count(*callee));
        lemma_skip_all(skipping(st, fn_count(*callee)), args);
    }
}

proof fn lemma_emit_all(cx: Cx, st: Em, s: Seq<Node>)
    requires
        st.next_lambda <= usize::MAX,
    ensures
        past(st, emit_all(cx, st, s), all_count(s)),
    decreases s, 0nat,
{
    lemma_all(s);
    if s.len() > 0 {
        lemma_emit_all(cx, st, s.drop_last());
        emitting_passes_the_lambdas(cx, emit_all(cx, st, s.drop_last()), s.last());
    }
}

proof fn lemma_store_all(cx: Cx, st: Em, c: u64, s: Seq<Node>, base: nat, stride: nat, ty: Option<WasmTy>)
    requires
        st.next_lambda <= usize::MAX,
    ensures
        past(st, store_all(cx, st, c, s, base, stride, ty), all_count(s)),
    decreases s, 0nat,
{
    broadcast use pieces_keep_count;

    lemma_all(s);
    if s.len() > 0 {
        lemma_store_all(cx, st, c, s.drop_last(), base, stride, ty);
        let before = store_all(cx, st, c, s.drop_last(), base, stride, ty);
        let at = slot_address(before, c, base + stride * ((s.len() - 1) as nat));
        emitting_passes_the_lambdas(cx, at, s.last());
    }
}

proof fn lemma_tail_args(cx: Cx, st: Em, s: Seq<Node>)
    requires
        st.next_lambda <= usize::MAX,
    ensures
        past(st, tail_args(cx, st, s).0, all_count(s)),
    decreases s, 0nat,
{
    broadcast use pieces_keep_count;

    lemma_all(s);
    if s.len() > 0 {
        lemma_tail_args(cx, st, s.drop_last());
        let (before, temps) = tail_args(cx, st, s.drop_last());
        emitting_passes_the_lambdas(cx, before, s.last());
    }
}

proof fn lemma_emit_arms(cx: Cx, st: Em, subject: Seq<char>, s: Seq<ArmNode>, done: Seq<char>)
    requires
        st.next_lambda <= usize::MAX,
    ensures
        past(st, emit_arms(cx, st, subject, s, done), arms_count(s)),
    decreases s, 0nat,
{
    lemma_arms(s);
    if s.len() > 0 {
        lemma_emit_arms(cx, st, subject, s.drop_last(), done);
        let before = emit_arms(cx, st, subject, s.drop_last(), done);
        lemma_emit_arm(cx, before, subject, s.last(), done);
    }
}

proof fn lemma_emit_arm(cx: Cx, st: Em, subject: Seq<char>, arm: ArmNode, done: Seq<char>)
    requires
        st.next_lambda <= usize::MAX,
    ensures
        past(st, emit_arm(cx, st, subject, arm, done), arm_count(arm)),
    decreases arm, 1nat,
{
    broadcast use pieces_keep_count;

    match arm.pattern {
        Pat::Variant { tag, bindings, .. } => {
            let tested = tag_test(st, subject, tag);
            lemma_bind_payload(tested, subject, bindings, bindings.len());
            let bound = bind_payload(tested, subject, bindings, bindings.len());
            lemma_arm_body(cx, bound, arm, done);
        },
        Pat::Wildcard { binding } => {
            let bound = match binding {
                Some(b) => bind_subject(st, subject, b.name, b.ty),
                None => st,
            };
            lemma_arm_body(cx, bound, arm, done);
        },
    }
}

proof fn lemma_arm_body(cx: Cx, st: Em, arm: ArmNode, done: Seq<char>)
    requires
        st.next_lambda <= usize::MAX,
    ensures
        past(st, arm_body(cx, st, arm, done), arm_count(arm)),
    decreases arm, 0nat,
{
    broadcast use pieces_keep_count;

    lemma_arm(arm);
    match arm.guard {
        Some(guard) => {
            emitting_passes_the_lambdas(cx, st, *guard);
            let tested = instruction(instruction(emit(cx, st, *guard), "(if"@), "(then"@);
            emitting_passes_the_lambdas(cx, tested, *arm.body);
        },
        None => emitting_passes_the_lambdas(cx, st, *arm.body),
    }
}

proof fn lemma_intrinsic(cx: Cx, st: Em, name: Seq<char>, args: Seq<Node>, ret: Ty)
    requires
        st.next_lambda <= usize::MAX,
    ensures
        past(st, intrinsic(cx, st, name, args, ret), all_count(args)),
    decreases args, 2nat,
{
    let how = inlined(name);
    lemma_args(args);
    if args.len() < needed(how) {
        broadcast use pieces_keep_count;

        lemma_skip_all(st, args);
    } else if needed(how) == 0 {
        broadcast use pieces_keep_count;

        lemma_emit_all(cx, st, args);
    } else if needed(how) == 1 {
        lemma_one(cx, st, name, args, ret);
    } else {
        lemma_two(cx, st, name, args, ret);
    }
}

proof fn lemma_one(cx: Cx, st: Em, name: Seq<char>, args: Seq<Node>, ret: Ty)
    requires
        st.next_lambda <= usize::MAX,
        needed(inlined(name)) == 1,
        args.len() >= 1,
    ensures
        past(st, intrinsic(cx, st, name, args, ret), all_count(args)),
    decreases args, 1nat,
{
    broadcast use pieces_keep_count;

    lemma_args(args);
    assert(decreases_to!(args => args[0]));
    emitting_passes_the_lambdas(cx, st, args[0]);
    let done = emit(cx, st, args[0]);
    match inlined(name) {
        Inlined::One => lemma_skip_all(done, args.skip(1)),
        Inlined::Helper(helper) => lemma_skip_all(call_helper(done, helper), args.skip(1)),
        Inlined::Apply(text) => lemma_skip_all(instruction(done, text), args.skip(1)),
        _ => {},
    }
}

proof fn lemma_two(cx: Cx, st: Em, name: Seq<char>, args: Seq<Node>, ret: Ty)
    requires
        st.next_lambda <= usize::MAX,
        needed(inlined(name)) == 2,
        args.len() >= 2,
    ensures
        past(st, intrinsic(cx, st, name, args, ret), all_count(args)),
    decreases args, 1nat,
{
    broadcast use pieces_keep_count;

    lemma_args(args);
    assert(decreases_to!(args => args[0]));
    assert(decreases_to!(args => args[1]));
    match inlined(name) {
        Inlined::Pair(helper) => {
            emitting_passes_the_lambdas(cx, st, args[0]);
            let first = emit(cx, st, args[0]);
            emitting_passes_the_lambdas(cx, first, args[1]);
            lemma_skip_all(call_helper(emit(cx, first, args[1]), helper), args.skip(2));
        },
        Inlined::Concat => {
            emitting_passes_the_lambdas(cx, concat_open(st), args[0]);
            let first = set_local(emit(cx, concat_open(st), args[0]), st.counter);
            emitting_passes_the_lambdas(cx, first, args[1]);
            lemma_skip_all(
                concat_end(cx, emit(cx, first, args[1]), st.counter),
                args.skip(2),
            );
        },
        Inlined::ByteAt => {
            emitting_passes_the_lambdas(cx, st, args[0]);
            let first = instruction(
                instruction(emit(cx, st, args[0]), "i32.const 4"@),
                "i32.add"@,
            );
            emitting_passes_the_lambdas(cx, first, args[1]);
            lemma_skip_all(
                instruction(instruction(emit(cx, first, args[1]), "i32.add"@), "i32.load8_u"@),
                args.skip(2),
            );
        },
        Inlined::ArrayGet => {
            emitting_passes_the_lambdas(cx, st, args[0]);
            let first = instruction(
                instruction(emit(cx, st, args[0]), "i32.const 4"@),
                "i32.add"@,
            );
            emitting_passes_the_lambdas(cx, first, args[1]);
            lemma_skip_all(array_load(emit(cx, first, args[1]), ret), args.skip(2));
        },
        Inlined::ArrayPush => {
            if let Ty::Array(elem) = ret {
                emitting_passes_the_lambdas(cx, push_open(st), args[0]);
                let first = push_middle(
                    cx,
                    emit(cx, push_open(st), args[0]),
                    st.counter,
                    *elem,
                );
                emitting_passes_the_lambdas(cx, first, args[1]);
                lemma_skip_all(
                    push_end(emit(cx, first, args[1]), st.counter, *elem),
                    args.skip(2),
                );
            } else {
                lemma_skip_all(st, args.take(2));
                lemma_skip_all(
                    failed(
                        skip_all(st, args.take(2)),
                        "internal error: `array_push` return type is not an array"@,
                    ),
                    args.skip(2),
                );
            }
        },
        _ => {},
    }
}

proof fn lemma_nodes(s: Seq<Node>)
    ensures
        lambda_nodes(s).len() == lambdas_in(s),
    decreases s.len(),
{
    if s.len() > 0 {
        lemma_nodes(s.drop_last());
    }
}

/// The lambdas of a function come in the module behind those of the functions
/// before it: as many as its own numbers start with.
pub proof fn lambdas_are_numbered_in_order(p: Seq<FnNode>, i: int)
    requires
        0 <= i <= p.len(),
        lambda_nodes(preorder_program(p.take(i))).len() <= usize::MAX,
    ensures
        lambdas_before(p, i as nat) == lambda_nodes(preorder_program(p.take(i))).len(),
    decreases i,
{
    lemma_nodes(preorder_program(p.take(i)));
    if i > 0 {
        let front = p.take(i - 1);
        assert(p.take(i).drop_last() =~= front);
        assert(p.take(i).last() == p[i - 1]);
        lemma_concat(preorder_program(front), preorder(p[i - 1].body));
        lemma_nodes(preorder_program(front));
        lambdas_are_numbered_in_order(p, i - 1);
    } else {
        assert(p.take(0).len() == 0);
    }
}

} // verus!
