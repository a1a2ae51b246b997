//! Code for expressions.

use vstd::prelude::*;

use super::data::string_offset;
use super::host::{platform_id, platform_wasm_name};
use super::layout::{
    capture_layout, capture_offset, find_last, find_sig, find_text, is_throwing, last_position,
    position, sig_of_type, throwing, type_sig, wasm_ty, WasmTy,
};
use super::pieces::{
    array_load, array_open, block_end, bound, branch, call_closure, call_function, call_helper,
    call_named, capture, closure_open, concat_end, concat_open, drop_local, enum_open, failed,
    field_load, find_slot, float, fresh, function_ref, get_local, hold, hold_closure, holding,
    id_text, if_open, instruction, integer, let_bind, local_id, match_open, number, numbered,
    pass_argument, push_end, push_middle, push_open, raise_error, record_open, scoped_to,
    set_local, skipping, slot_address, store, tag_test, try_close, try_open, unwrap_result,
    variable, bind_field, bind_subject, Cx, Em, FnEmitter, Slot, SlotT, Tables,
};
use super::shapes::{mask_of, pointer_mask};
use crate::ir::{
    arm_nodes, capture_binds, node_ty, nodes, opt_binds, ArmNode, Bind, IrArm, IrCapture, IrExpr,
    IrPattern, Node, Pat,
};
use crate::ir_walk::{preorder, refs, walk};
use crate::strings::{decimal, owned, push_wide, same, texts};
use crate::types::{BinaryOp, Ty, Type};

verus! {

/// How an intrinsic is inlined.
pub enum Inline {
    /// Concatenates two blobs.
    Concat,
    /// Calls a helper with two arguments.
    Pair(&'static str),
    /// Calls a helper with all arguments.
    All(&'static str),
    /// Is the identity on the representation: a `Char` is already its code point.
    One,
    /// Calls a helper with one argument.
    Helper(&'static str),
    /// Applies an instruction to one argument.
    Apply(&'static str),
    /// Loads a byte.
    ByteAt,
    /// Loads an array element.
    ArrayGet,
    /// Copies an array and appends to it.
    ArrayPush,
    /// Applies an instruction to all arguments.
    Plain(&'static str),
    /// Is not provided.
    Unknown,
}

/// What an [`Inline`] says.
pub enum Inlined {
    Concat,
    Pair(Seq<char>),
    All(Seq<char>),
    One,
    Helper(Seq<char>),
    Apply(Seq<char>),
    ByteAt,
    ArrayGet,
    ArrayPush,
    Plain(Seq<char>),
    Unknown,
}

impl Inline {
    pub open spec fn view(&self) -> Inlined {
        match self {
            Inline::Concat => Inlined::Concat,
            Inline::Pair(t) => Inlined::Pair(t@),
            Inline::All(t) => Inlined::All(t@),
            Inline::One => Inlined::One,
            Inline::Helper(t) => Inlined::Helper(t@),
            Inline::Apply(t) => Inlined::Apply(t@),
            Inline::ByteAt => Inlined::ByteAt,
            Inline::ArrayGet => Inlined::ArrayGet,
            Inline::ArrayPush => Inlined::ArrayPush,
            Inline::Plain(t) => Inlined::Plain(t@),
            Inline::Unknown => Inlined::Unknown,
        }
    }
}

/// How the intrinsic called `name` is inlined. A byte sequence shares the
/// representation of a string, so `bytes_concat` and `bytes_eq` reuse the string
/// helpers; the conversions copy, because their result is owned and their
/// argument only borrowed.
pub open spec fn inlined(name: Seq<char>) -> Inlined {
    if name == "string_concat"@ || name == "bytes_concat"@ {
        Inlined::Concat
    } else if name == "string_eq"@ || name == "bytes_eq"@ {
        Inlined::Pair("string_eq"@)
    } else if name == "string_lt"@ {
        Inlined::Pair("string_lt"@)
    } else if name == "string_length"@ {
        Inlined::All("string_length"@)
    } else if name == "string_char_at"@ {
        Inlined::All("string_char_at"@)
    } else if name == "string_slice"@ {
        Inlined::All("string_slice"@)
    } else if name == "bytes_slice"@ {
        Inlined::All("bytes_slice"@)
    } else if name == "char_code"@ || name == "char_from_code"@ {
        Inlined::One
    } else if name == "string_from_char"@ {
        Inlined::Helper("string_from_char"@)
    } else if name == "bytes_from_string"@ || name == "bytes_as_string_unchecked"@ {
        Inlined::Helper("blob_dup"@)
    } else if name == "bytes_length"@ || name == "array_length"@ {
        Inlined::Apply("i32.load"@)
    } else if name == "bytes_get_unchecked"@ {
        Inlined::ByteAt
    } else if name == "array_get_unchecked"@ {
        Inlined::ArrayGet
    } else if name == "array_push"@ {
        Inlined::ArrayPush
    } else if name == "i32_add"@ {
        Inlined::Plain("i32.add"@)
    } else if name == "i32_sub"@ {
        Inlined::Plain("i32.sub"@)
    } else if name == "i32_mul"@ {
        Inlined::Plain("i32.mul"@)
    } else if name == "i32_div_s"@ {
        Inlined::Plain("i32.div_s"@)
    } else if name == "i32_rem_s"@ {
        Inlined::Plain("i32.rem_s"@)
    } else if name == "i32_eq"@ {
        Inlined::Plain("i32.eq"@)
    } else if name == "i32_lt_s"@ {
        Inlined::Plain("i32.lt_s"@)
    } else if name == "f64_add"@ {
        Inlined::Plain("f64.add"@)
    } else if name == "f64_sub"@ {
        Inlined::Plain("f64.sub"@)
    } else if name == "f64_mul"@ {
        Inlined::Plain("f64.mul"@)
    } else if name == "f64_div"@ {
        Inlined::Plain("f64.div"@)
    } else if name == "f64_eq"@ {
        Inlined::Plain("f64.eq"@)
    } else if name == "f64_lt"@ {
        Inlined::Plain("f64.lt"@)
    } else if name == "f64_sqrt"@ {
        Inlined::Plain("f64.sqrt"@)
    } else {
        Inlined::Unknown
    }
}

/// How the intrinsic called `name` is inlined.
pub fn inline_of(name: &str) -> (r: Inline)
    ensures
        r@ == inlined(name@),
{
    if same(name, "string_concat") || same(name, "bytes_concat") {
        Inline::Concat
    } else if same(name, "string_eq") || same(name, "bytes_eq") {
        Inline::Pair("string_eq")
    } else if same(name, "string_lt") {
        Inline::Pair("string_lt")
    } else if same(name, "string_length") {
        Inline::All("string_length")
    } else if same(name, "string_char_at") {
        Inline::All("string_char_at")
    } else if same(name, "string_slice") {
        Inline::All("string_slice")
    } else if same(name, "bytes_slice") {
        Inline::All("bytes_slice")
    } else if same(name, "char_code") || same(name, "char_from_code") {
        Inline::One
    } else if same(name, "string_from_char") {
        Inline::Helper("string_from_char")
    } else if same(name, "bytes_from_string") || same(name, "bytes_as_string_unchecked") {
        Inline::Helper("blob_dup")
    } else if same(name, "bytes_length") || same(name, "array_length") {
        Inline::Apply("i32.load")
    } else if same(name, "bytes_get_unchecked") {
        Inline::ByteAt
    } else if same(name, "array_get_unchecked") {
        Inline::ArrayGet
    } else if same(name, "array_push") {
        Inline::ArrayPush
    } else if same(name, "i32_add") {
        Inline::Plain("i32.add")
    } else if same(name, "i32_sub") {
        Inline::Plain("i32.sub")
    } else if same(name, "i32_mul") {
        Inline::Plain("i32.mul")
    } else if same(name, "i32_div_s") {
        Inline::Plain("i32.div_s")
    } else if same(name, "i32_rem_s") {
        Inline::Plain("i32.rem_s")
    } else if same(name, "i32_eq") {
        Inline::Plain("i32.eq")
    } else if same(name, "i32_lt_s") {
        Inline::Plain("i32.lt_s")
    } else if same(name, "f64_add") {
        Inline::Plain("f64.add")
    } else if same(name, "f64_sub") {
        Inline::Plain("f64.sub")
    } else if same(name, "f64_mul") {
        Inline::Plain("f64.mul")
    } else if same(name, "f64_div") {
        Inline::Plain("f64.div")
    } else if same(name, "f64_eq") {
        Inline::Plain("f64.eq")
    } else if same(name, "f64_lt") {
        Inline::Plain("f64.lt")
    } else if same(name, "f64_sqrt") {
        Inline::Plain("f64.sqrt")
    } else {
        Inline::Unknown
    }
}

/// Whether the backend provides the intrinsic called `name`.
pub fn wasm_provides_intrinsic(name: &str) -> (r: bool)
    ensures
        r == !(inlined(name@) is Unknown),
{
    !matches!(inline_of(name), Inline::Unknown)
}

/// How many arguments an intrinsic reads by position.
pub open spec fn needed(how: Inlined) -> nat {
    match how {
        Inlined::Concat => 2,
        Inlined::Pair(_) => 2,
        Inlined::One => 1,
        Inlined::Helper(_) => 1,
        Inlined::Apply(_) => 1,
        Inlined::ByteAt => 2,
        Inlined::ArrayGet => 2,
        Inlined::ArrayPush => 2,
        _ => 0,
    }
}

fn needs(how: &Inline) -> (r: usize)
    ensures
        r == needed(how@),
{
    match how {
        Inline::Concat => 2,
        Inline::Pair(_) => 2,
        Inline::One => 1,
        Inline::Helper(_) => 1,
        Inline::Apply(_) => 1,
        Inline::ByteAt => 2,
        Inline::ArrayGet => 2,
        Inline::ArrayPush => 2,
        _ => 0,
    }
}

/// The instruction of a binary operator. `%` is for `Int` only, `++` has a node
/// of its own, and the other comparisons and the shifts are desugared before.
pub open spec fn binary_op(op: BinaryOp, ty: WasmTy) -> Option<Seq<char>> {
    match (ty, op) {
        (WasmTy::I32, BinaryOp::Add) => Some("i32.add"@),
        (WasmTy::I32, BinaryOp::Sub) => Some("i32.sub"@),
        (WasmTy::I32, BinaryOp::Mul) => Some("i32.mul"@),
        (WasmTy::I32, BinaryOp::Div) => Some("i32.div_s"@),
        (WasmTy::I32, BinaryOp::Rem) => Some("i32.rem_s"@),
        (WasmTy::I32, BinaryOp::Eq) => Some("i32.eq"@),
        (WasmTy::I32, BinaryOp::Lt) => Some("i32.lt_s"@),
        (WasmTy::F64, BinaryOp::Add) => Some("f64.add"@),
        (WasmTy::F64, BinaryOp::Sub) => Some("f64.sub"@),
        (WasmTy::F64, BinaryOp::Mul) => Some("f64.mul"@),
        (WasmTy::F64, BinaryOp::Div) => Some("f64.div"@),
        (WasmTy::F64, BinaryOp::Eq) => Some("f64.eq"@),
        (WasmTy::F64, BinaryOp::Lt) => Some("f64.lt"@),
        _ => None,
    }
}

fn instruction_of(op: BinaryOp, ty: WasmTy) -> (r: Option<&'static str>)
    ensures
        match r {
            Some(text) => binary_op(op, ty) == Some(text@),
            None => binary_op(op, ty) is None,
        },
{
    match (ty, op) {
        (WasmTy::I32, BinaryOp::Add) => Some("i32.add"),
        (WasmTy::I32, BinaryOp::Sub) => Some("i32.sub"),
        (WasmTy::I32, BinaryOp::Mul) => Some("i32.mul"),
        (WasmTy::I32, BinaryOp::Div) => Some("i32.div_s"),
        (WasmTy::I32, BinaryOp::Rem) => Some("i32.rem_s"),
        (WasmTy::I32, BinaryOp::Eq) => Some("i32.eq"),
        (WasmTy::I32, BinaryOp::Lt) => Some("i32.lt_s"),
        (WasmTy::F64, BinaryOp::Add) => Some("f64.add"),
        (WasmTy::F64, BinaryOp::Sub) => Some("f64.sub"),
        (WasmTy::F64, BinaryOp::Mul) => Some("f64.mul"),
        (WasmTy::F64, BinaryOp::Div) => Some("f64.div"),
        (WasmTy::F64, BinaryOp::Eq) => Some("f64.eq"),
        (WasmTy::F64, BinaryOp::Lt) => Some("f64.lt"),
        _ => None,
    }
}

/// How many lambdas there are among some expressions.
pub open spec fn lambdas_in(s: Seq<Node>) -> nat
    decreases s.len(),
{
    if s.len() == 0 {
        0
    } else {
        lambdas_in(s.drop_last()) + (if s.last() is Fn {
            1nat
        } else {
            0
        })
    }
}

/// How many lambdas there are in an expression, at any depth.
pub open spec fn fn_count(e: Node) -> nat {
    lambdas_in(preorder(e))
}

/// How many lambdas there are in an expression, at any depth.
pub fn count_lambdas(e: &IrExpr) -> (r: usize)
    ensures
        r == fn_count(e@),
{
    let all = walk(e);
    let ghost views = refs(all@);
    let mut n: usize = 0;
    let mut i: usize = 0;
    assert(views.take(0).len() == 0);
    while i < all.len()
        invariant
            i <= all.len(),
            views == refs(all@),
            n <= i,
            n == lambdas_in(views.take(i as int)),
        decreases all.len() - i,
    {
        proof {
            assert(views.take(i + 1).drop_last() =~= views.take(i as int));
            assert(views.take(i + 1).last() == all@[i as int]@);
        }
        if let IrExpr::Fn { .. } = all[i] {
            n += 1;
        }
        i += 1;
    }
    assert(views.take(views.len() as int) =~= views);
    n
}

/// Past the lambdas of some expressions.
pub open spec fn skip_all(st: Em, s: Seq<Node>) -> Em
    decreases s.len(),
{
    if s.len() == 0 {
        st
    } else {
        skipping(skip_all(st, s.drop_last()), fn_count(s.last()))
    }
}

/// The captures of a closure, the first `n` of them.
pub open spec fn captured(st: Em, c: u64, captures: Seq<Bind>, n: nat) -> Em
    decreases n,
{
    if n == 0 {
        st
    } else {
        capture(
            captured(st, c, captures, (n - 1) as nat),
            c,
            captures[n - 1],
            capture_offset(captures, n - 1),
        )
    }
}

/// A lambda used as a value: a closure `[table_index][captures...]`. The lambda
/// and the `count - 1` in its body are passed.
pub open spec fn closure(cx: Cx, st: Em, captures: Seq<Bind>, count: nat) -> Em {
    let c = st.counter;
    let opened = closure_open(cx, st, captures, cx.functions.len() + st.next_lambda);
    skipping(get_local(captured(opened, c, captures, captures.len()), c), count)
}

/// The first `n` bindings of a payload.
pub open spec fn bind_payload(st: Em, subject: Seq<char>, bindings: Seq<Option<Bind>>, n: nat) -> Em
    decreases n,
{
    if n == 0 {
        st
    } else {
        let before = bind_payload(st, subject, bindings, (n - 1) as nat);
        match bindings[n - 1] {
            Some(b) => bind_field(before, subject, b.name, b.ty, (8 + 8 * (n - 1)) as nat),
            None => before,
        }
    }
}

/// Reassigns the first `n` parameters from temporaries.
pub open spec fn pass_all(st: Em, temps: Seq<Seq<char>>, n: nat) -> Em
    decreases n,
{
    if n == 0 {
        st
    } else {
        pass_argument(pass_all(st, temps, (n - 1) as nat), temps[n - 1], (n - 1) as nat)
    }
}

/// The top-level function that a call calls directly.
pub open spec fn direct(cx: Cx, callee: Node) -> Option<Seq<char>> {
    match callee {
        Node::FunctionRef { name, .. } => if last_position(cx.functions, name) is Some {
            Some(name)
        } else {
            None
        },
        _ => None,
    }
}

/// Code for an expression. It leaves the expression's value on the stack.
pub open spec fn emit(cx: Cx, st: Em, e: Node) -> Em
    decreases e, 1nat,
{
    match e {
        Node::Int(value) => integer(st, value),
        Node::Bool(value) => number(
            st,
            if value {
                1
            } else {
                0
            },
        ),
        Node::Unit => number(st, 0),
        Node::Float(text) => float(st, text),
        Node::Char(code) => number(st, code as nat),
        Node::String(value) => match position(cx.strings, value) {
            Some(i) => number(st, string_offset(cx.strings, i as int)),
            None => failed(st, "internal error: string literal was not interned"@),
        },
        Node::Var { name, .. } => variable(st, name),
        Node::FunctionRef { name, .. } => match last_position(cx.functions, name) {
            Some(i) => function_ref(cx, st, i),
            None => failed(st, "function `"@ + name + "` is not in the wasm table"@),
        },
        Node::Fn { captures, .. } => closure(cx, st, captures, fn_count(e)),
        Node::Panic { message } => skipping(
            instruction(st, "unreachable"@),
            fn_count(*message),
        ),
        Node::Binary { op, ty, left, right } => {
            let operands = emit(cx, emit(cx, st, *left), *right);
            match binary_op(op, wasm_ty(ty)) {
                Some(text) => instruction(operands, text),
                None => failed(operands, "internal error: operator has no instruction"@),
            }
        },
        Node::Let { name, value_ty, value, next } => emit(
            cx,
            let_bind(emit(cx, st, *value), name, value_ty),
            *next,
        ),
        Node::Call { callee, args, ret } => {
            let called = match direct(cx, *callee) {
                // The environment of a top-level function is unused.
                Some(name) => call_function(emit_all(cx, number(st, 0), args), name),
                None => match node_ty(*callee) {
                    Ty::Function(f) => match position(cx.sigs, type_sig(f)) {
                        Some(i) => {
                            let held = emit(cx, st, *callee);
                            call_closure(
                                emit_all(cx, hold_closure(held), args),
                                held.counter,
                                i,
                            )
                        },
                        None => failed(
                            skip_all(skipping(st, fn_count(*callee)), args),
                            "internal error: indirect call signature was not declared"@,
                        ),
                    },
                    _ => failed(
                        skip_all(skipping(st, fn_count(*callee)), args),
                        "wasm backend cannot call a non-function value"@,
                    ),
                },
            };
            if throwing(*callee) {
                unwrap_result(cx, called, ret)
            } else {
                called
            }
        },
        Node::Platform { name, args, ret, throws } => {
            let called = call_named(emit_all(cx, st, args), platform_id(name));
            if throws is Some {
                unwrap_result(cx, called, ret)
            } else {
                called
            }
        },
        Node::Intrinsic { name, args, ret } => intrinsic(cx, st, name, args, ret),
        Node::CharFromCode(value) => emit(cx, st, *value),
        Node::StringFromChar(value) => call_helper(emit(cx, st, *value), "string_from_char"@),
        Node::Concat { left, right } => concat_end(
            cx,
            emit(
                cx,
                set_local(emit(cx, concat_open(st), *left), st.counter),
                *right,
            ),
            st.counter,
        ),
        Node::Array { elem_ty, elems } => get_local(
            store_all(
                cx,
                array_open(cx, st, elem_ty, elems.len()),
                st.counter,
                elems,
                4,
                wasm_ty(elem_ty).bytes(),
                Some(wasm_ty(elem_ty)),
            ),
            st.counter,
        ),
        Node::EnumValue { ty, tag, payload, .. } => get_local(
            store_all(
                cx,
                enum_open(cx, st, ty, tag, payload.len()),
                st.counter,
                payload,
                8,
                8,
                None,
            ),
            st.counter,
        ),
        Node::RecordValue { fields, .. } => get_local(
            store_all(
                cx,
                record_open(cx, st, pointer_mask(fields)),
                st.counter,
                fields,
                0,
                8,
                None,
            ),
            st.counter,
        ),
        Node::FieldAccess { target, index, field_ty } => field_load(
            emit(cx, st, *target),
            index,
            field_ty,
        ),
        Node::Match { scrutinee, arms, ty } => {
            let held = emit(cx, fresh(st, WasmTy::I32), *scrutinee);
            block_end(
                emit_arms(
                    cx,
                    match_open(held, st.counter, ty),
                    local_id(st.counter),
                    arms,
                    "$match_"@ + decimal(held.counter as nat),
                ),
            )
        },
        Node::If { cond, then, els, ty } => instruction(
            emit(
                cx,
                instruction(emit(cx, if_open(emit(cx, st, *cond), ty), *then), "else"@),
                *els,
            ),
            "end"@,
        ),
        Node::Throw { value } => raise_error(cx, emit(cx, st, *value)),
        Node::Try { body, arms, ty, err_name } => {
            let tried = emit(cx, try_open(st, ty), *body);
            let err = local_id(tried.counter);
            let caught = try_close(tried, st.counter, st.managed.len());
            // The caught error is owned; it is released through this binding.
            let named = match err_name {
                Some(name) => bound(holding(caught, err), name, SlotT::Local(err)),
                None => caught,
            };
            block_end(
                emit_arms(cx, named, err, arms, "$try_"@ + decimal(st.counter as nat)),
            )
        },
        // The inner throwing call already unwraps and branches on error.
        Node::Question { value, .. } => emit(cx, st, *value),
        Node::TailSelfCall { args, .. } => {
            let (held, temps) = tail_args(cx, st, args);
            instruction(pass_all(held, temps, temps.len()), "br $tail"@)
        },
        Node::Retain { value } => call_helper(emit(cx, st, *value), "rc_retain"@),
        Node::Release { name, next, .. } => match find_slot(st.scope, name) {
            Some(SlotT::Local(id)) => emit(cx, drop_local(st, id), *next),
            _ => failed(
                skipping(st, fn_count(*next)),
                "release of a non-local binding `"@ + name + "` in wasm"@,
            ),
        },
    }
}

/// Code for some expressions, one after the other.
pub open spec fn emit_all(cx: Cx, st: Em, s: Seq<Node>) -> Em
    decreases s, 0nat,
{
    if s.len() == 0 {
        st
    } else {
        emit(cx, emit_all(cx, st, s.drop_last()), s.last())
    }
}

/// Code that stores some values into the block in the temporary numbered `c`,
/// `stride` bytes apart from `base` on.
pub open spec fn store_all(cx: Cx, st: Em, c: u64, s: Seq<Node>, base: nat, stride: nat, ty: Option<WasmTy>) -> Em
    decreases s, 0nat,
{
    if s.len() == 0 {
        st
    } else {
        let before = store_all(cx, st, c, s.drop_last(), base, stride, ty);
        let slot = match ty {
            Some(ty) => ty,
            None => wasm_ty(node_ty(s.last())),
        };
        store(
            emit(
                cx,
                slot_address(before, c, base + stride * ((s.len() - 1) as nat)),
                s.last(),
            ),
            slot,
        )
    }
}

/// Code for the arguments of a self tail call, each into a temporary; and the
/// temporaries.
pub open spec fn tail_args(cx: Cx, st: Em, s: Seq<Node>) -> (Em, Seq<Seq<char>>)
    decreases s, 0nat,
{
    if s.len() == 0 {
        (st, Seq::empty())
    } else {
        let (before, temps) = tail_args(cx, st, s.drop_last());
        let valued = emit(cx, before, s.last());
        (hold(valued, wasm_ty(node_ty(s.last()))), temps.push(local_id(valued.counter)))
    }
}

/// Code for the arms of a `match` or a `catch`.
pub open spec fn emit_arms(cx: Cx, st: Em, subject: Seq<char>, s: Seq<ArmNode>, done: Seq<char>) -> Em
    decreases s, 0nat,
{
    if s.len() == 0 {
        st
    } else {
        emit_arm(cx, emit_arms(cx, st, subject, s.drop_last(), done), subject, s.last(), done)
    }
}

/// Code for an arm: tests the tag, binds the payload, and branches to `done` with
/// the arm's value.
pub open spec fn emit_arm(cx: Cx, st: Em, subject: Seq<char>, arm: ArmNode, done: Seq<char>) -> Em
    decreases arm, 1nat,
{
    let tried = match arm.pattern {
        Pat::Variant { tag, bindings, .. } => instruction(
            arm_body(
                cx,
                bind_payload(tag_test(st, subject, tag), subject, bindings, bindings.len()),
                arm,
                done,
            ),
            "))"@,
        ),
        Pat::Wildcard { binding } => arm_body(
            cx,
            match binding {
                Some(b) => bind_subject(st, subject, b.name, b.ty),
                None => st,
            },
            arm,
            done,
        ),
    };
    scoped_to(tried, st.scope.len())
}

/// Code for the body of an arm, under its guard.
pub open spec fn arm_body(cx: Cx, st: Em, arm: ArmNode, done: Seq<char>) -> Em
    decreases arm, 0nat,
{
    match arm.guard {
        Some(guard) => instruction(
            branch(
                emit(
                    cx,
                    instruction(instruction(emit(cx, st, *guard), "(if"@), "(then"@),
                    *arm.body,
                ),
                done,
            ),
            "))"@,
        ),
        None => branch(emit(cx, st, *arm.body), done),
    }
}

/// Code for an intrinsic.
pub open spec fn intrinsic(cx: Cx, st: Em, name: Seq<char>, args: Seq<Node>, ret: Ty) -> Em
    decreases args, 2nat,
{
    let how = inlined(name);
    if args.len() < needed(how) {
        failed(
            skip_all(st, args),
            "intrinsic `"@ + name + "` takes "@ + decimal(needed(how)) + " argument(s)"@,
        )
    } else {
        let code = match how {
            Inlined::Plain(text) => instruction(emit_all(cx, st, args), text),
            Inlined::All(helper) => call_helper(emit_all(cx, st, args), helper),
            Inlined::Unknown => failed(
                emit_all(cx, st, args),
                "backend `wasm-wasi` does not provide intrinsic `"@ + name + "`"@,
            ),
            Inlined::One => emit(cx, st, args[0]),
            Inlined::Helper(helper) => call_helper(emit(cx, st, args[0]), helper),
            Inlined::Apply(text) => instruction(emit(cx, st, args[0]), text),
            Inlined::Pair(helper) => call_helper(
                emit(cx, emit(cx, st, args[0]), args[1]),
                helper,
            ),
            Inlined::Concat => concat_end(
                cx,
                emit(
                    cx,
                    set_local(emit(cx, concat_open(st), args[0]), st.counter),
                    args[1],
                ),
                st.counter,
            ),
            Inlined::ByteAt => instruction(
                instruction(
                    emit(
                        cx,
                        instruction(
                            instruction(emit(cx, st, args[0]), "i32.const 4"@),
                            "i32.add"@,
                        ),
                        args[1],
                    ),
                    "i32.add"@,
                ),
                "i32.load8_u"@,
            ),
            Inlined::ArrayGet => array_load(
                emit(
                    cx,
                    instruction(
                        instruction(emit(cx, st, args[0]), "i32.const 4"@),
                        "i32.add"@,
                    ),
                    args[1],
                ),
                ret,
            ),
            Inlined::ArrayPush => match ret {
                Ty::Array(elem) => push_end(
                    emit(
                        cx,
                        push_middle(
                            cx,
                            emit(cx, push_open(st), args[0]),
                            st.counter,
                            *elem,
                        ),
                        args[1],
                    ),
                    st.counter,
                    *elem,
                ),
                _ => failed(
                    skip_all(st, args.take(2)),
                    "internal error: `array_push` return type is not an array"@,
                ),
            },
        };
        if needed(how) == 0 {
            code
        } else {
            skip_all(code, args.skip(needed(how) as int))
        }
    }
}

impl FnEmitter {
    /// Passes the lambdas of the expressions from `from` to `to`.
    fn skip_range(&mut self, s: &Vec<IrExpr>, from: usize, to: usize)
        requires
            from <= to <= s@.len(),
        ensures
            final(self)@ == skip_all(
                old(self)@,
                nodes(s@).subrange(from as int, to as int),
            ),
    {
        let ghost all = nodes(s@);
        let ghost part = all.subrange(from as int, to as int);
        assert(all.len() == s@.len());
        let mut i: usize = from;
        assert(part.take(0).len() == 0);
        while i < to
            invariant
                from <= i <= to <= s@.len(),
                all == nodes(s@),
                all.len() == s@.len(),
                part == all.subrange(from as int, to as int),
                self@ == skip_all(old(self)@, part.take(i - from)),
            decreases to - i,
        {
            self.skip(count_lambdas(&s[i]));
            proof {
                assert(part.take(i + 1 - from).drop_last() =~= part.take(i - from));
                assert(part.take(i + 1 - from).last() == s@[i as int]@);
            }
            i += 1;
        }
        assert(part.take(part.len() as int) =~= part);
    }

    /// Passes the lambdas of some expressions.
    fn skip_list(&mut self, s: &Vec<IrExpr>)
        ensures
            final(self)@ == skip_all(old(self)@, nodes(s@)),
    {
        assert(nodes(s@).len() == s@.len());
        assert(nodes(s@).subrange(0, s@.len() as int) =~= nodes(s@));
        self.skip_range(s, 0, s.len());
    }

    fn closure(&mut self, cx: &Tables, e: &IrExpr, captures: &Vec<IrCapture>)
        requires
            cx.wf(),
        ensures
            final(self)@ == closure(
                cx@,
                old(self)@,
                capture_binds(captures@),
                fn_count(e@),
            ),
    {
        let ghost binds = capture_binds(captures@);
        let c: u64 = self.counter;
        let index: u128 = cx.functions.len() as u128 + self.next_lambda as u128;
        let (offsets, size) = capture_layout(captures);
        self.closure_open(cx, captures, size, index);
        let ghost opened = self@;
        let mut i: usize = 0;
        while i < captures.len()
            invariant
                i <= captures.len(),
                binds == capture_binds(captures@),
                offsets@.len() == captures@.len(),
                forall|k: int|
                    0 <= k < captures@.len() ==> #[trigger] offsets@[k] == capture_offset(
                        binds,
                        k,
                    ),
                self@ == captured(opened, c, binds, i as nat),
            decreases captures.len() - i,
        {
            self.capture(c, &captures[i], offsets[i]);
            i += 1;
        }
        self.get_local(c);
        self.skip(count_lambdas(e));
    }

    fn bind_payload(&mut self, subject: &str, bindings: &Vec<Option<(String, Type)>>)
        ensures
            final(self)@ == bind_payload(
                old(self)@,
                subject@,
                opt_binds(bindings@),
                opt_binds(bindings@).len(),
            ),
    {
        let ghost all = opt_binds(bindings@);
        let mut i: usize = 0;
        while i < bindings.len()
            invariant
                i <= bindings.len(),
                all == opt_binds(bindings@),
                self@ == bind_payload(old(self)@, subject@, all, i as nat),
            decreases bindings.len() - i,
        {
            if let Some((name, ty)) = &bindings[i] {
                self.bind_field(subject, name, ty, 8 + 8 * (i as u128));
            }
            i += 1;
        }
    }

    fn pass_all(&mut self, temps: &Vec<String>)
        ensures
            final(self)@ == pass_all(old(self)@, texts(temps@), texts(temps@).len()),
    {
        let ghost all = texts(temps@);
        let mut i: usize = 0;
        while i < temps.len()
            invariant
                i <= temps.len(),
                all == texts(temps@),
                self@ == pass_all(old(self)@, all, i as nat),
            decreases temps.len() - i,
        {
            self.pass_argument(temps[i].as_str(), i);
            i += 1;
        }
    }

    fn all(&mut self, cx: &Tables, s: &Vec<IrExpr>)
        requires
            cx.wf(),
        ensures
            final(self)@ == emit_all(cx@, old(self)@, nodes(s@)),
        decreases s@, 0nat,
    {
        let ghost views = nodes(s@);
        let mut i: usize = 0;
        assert(views.take(0).len() == 0);
        while i < s.len()
            invariant
                i <= s.len(),
                cx.wf(),
                views == nodes(s@),
                self@ == emit_all(cx@, old(self)@, views.take(i as int)),
            decreases s.len() - i,
        {
            self.emit(cx, &s[i]);
            proof {
                assert(views.take(i + 1).drop_last() =~= views.take(i as int));
                assert(views.take(i + 1).last() == s@[i as int]@);
            }
            i += 1;
        }
        assert(views.take(views.len() as int) =~= views);
    }

    fn stores(&mut self, cx: &Tables, c: u64, s: &Vec<IrExpr>, base: u64, stride: u128, ty: Option<
        WasmTy,
    >)
        requires
            cx.wf(),
            stride <= 8,
        ensures
            final(self)@ == store_all(
                cx@,
                old(self)@,
                c,
                nodes(s@),
                base as nat,
                stride as nat,
                ty,
            ),
        decreases s@, 0nat,
    {
        let ghost views = nodes(s@);
        let mut i: usize = 0;
        assert(views.take(0).len() == 0);
        while i < s.len()
            invariant
                i <= s.len(),
                cx.wf(),
                stride <= 8,
                views == nodes(s@),
                self@ == store_all(
                    cx@,
                    old(self)@,
                    c,
                    views.take(i as int),
                    base as nat,
                    stride as nat,
                    ty,
                ),
            decreases s.len() - i,
        {
            proof {
                assert(stride * (i as u128) <= 8 * (i as u128)) by (nonlinear_arith)
                    requires
                        stride <= 8,
                ;
                assert(views.take(i + 1).drop_last() =~= views.take(i as int));
                assert(views.take(i + 1).last() == s@[i as int]@);
            }
            self.slot_address(c, base as u128 + stride * (i as u128));
            self.emit(cx, &s[i]);
            let slot: WasmTy = match ty {
                Some(ty) => ty,
                None => WasmTy::of(&s[i].ty()),
            };
            self.store(slot);
            i += 1;
        }
        assert(views.take(views.len() as int) =~= views);
    }

    fn tail_call(&mut self, cx: &Tables, s: &Vec<IrExpr>) -> (r: Vec<String>)
        requires
            cx.wf(),
        ensures
            (final(self)@, texts(r@)) == tail_args(cx@, old(self)@, nodes(s@)),
        decreases s@, 0nat,
    {
        let ghost views = nodes(s@);
        let mut temps: Vec<String> = Vec::new();
        let mut i: usize = 0;
        proof {
            assert(views.take(0).len() == 0);
            assert(texts(temps@) =~= Seq::<Seq<char>>::empty());
        }
        while i < s.len()
            invariant
                i <= s.len(),
                cx.wf(),
                views == nodes(s@),
                (self@, texts(temps@)) == tail_args(cx@, old(self)@, views.take(i as int)),
            decreases s.len() - i,
        {
            let ghost before = texts(temps@);
            self.emit(cx, &s[i]);
            let temp = id_text(self.counter);
            self.hold(WasmTy::of(&s[i].ty()));
            temps.push(temp);
            proof {
                assert(views.take(i + 1).drop_last() =~= views.take(i as int));
                assert(views.take(i + 1).last() == s@[i as int]@);
                assert(texts(temps@) =~= before.push(temp@));
            }
            i += 1;
        }
        assert(views.take(views.len() as int) =~= views);
        temps
    }

    fn arms(&mut self, cx: &Tables, subject: &str, s: &Vec<IrArm>, done: &str)
        requires
            cx.wf(),
        ensures
            final(self)@ == emit_arms(cx@, old(self)@, subject@, arm_nodes(s@), done@),
        decreases s@, 0nat,
    {
        let ghost views = arm_nodes(s@);
        let mut i: usize = 0;
        assert(views.take(0).len() == 0);
        while i < s.len()
            invariant
                i <= s.len(),
                cx.wf(),
                views == arm_nodes(s@),
                self@ == emit_arms(
                    cx@,
                    old(self)@,
                    subject@,
                    views.take(i as int),
                    done@,
                ),
            decreases s.len() - i,
        {
            self.arm(cx, subject, &s[i], done);
            proof {
                assert(views.take(i + 1).drop_last() =~= views.take(i as int));
                assert(views.take(i + 1).last() == s@[i as int]@);
            }
            i += 1;
        }
        assert(views.take(views.len() as int) =~= views);
    }

    fn arm(&mut self, cx: &Tables, subject: &str, arm: &IrArm, done: &str)
        requires
            cx.wf(),
        ensures
            final(self)@ == emit_arm(cx@, old(self)@, subject@, arm@, done@),
        decreases arm, 1nat,
    {
        let mark: usize = self.scope_mark();
        match &arm.pattern {
            IrPattern::Variant { tag, bindings, .. } => {
                self.tag_test(subject, *tag);
                self.bind_payload(subject, bindings);
                self.arm_body(cx, arm, done);
                self.instruction("))");
            },
            IrPattern::Wildcard { binding } => {
                if let Some((name, ty)) = binding {
                    self.bind_subject(subject, name, ty);
                }
                self.arm_body(cx, arm, done);
            },
        }
        self.unscope(mark);
    }

    fn arm_body(&mut self, cx: &Tables, arm: &IrArm, done: &str)
        requires
            cx.wf(),
        ensures
            final(self)@ == arm_body(cx@, old(self)@, arm@, done@),
        decreases arm, 0nat,
    {
        match &arm.guard {
            Some(guard) => {
                self.emit(cx, guard);
                self.instruction("(if");
                self.instruction("(then");
                self.emit(cx, &arm.body);
                self.branch(done);
                self.instruction("))");
            },
            None => {
                self.emit(cx, &arm.body);
                self.branch(done);
            },
        }
    }

    fn array_push(&mut self, cx: &Tables, args: &Vec<IrExpr>, ret: &Type)
        requires
            cx.wf(),
            args@.len() >= 2,
        ensures
            final(self)@ == (match ret@ {
                Ty::Array(elem) => push_end(
                    emit(
                        cx@,
                        push_middle(
                            cx@,
                            emit(cx@, push_open(old(self)@), nodes(args@)[0]),
                            old(self)@.counter,
                            *elem,
                        ),
                        nodes(args@)[1],
                    ),
                    old(self)@.counter,
                    *elem,
                ),
                _ => failed(
                    skip_all(old(self)@, nodes(args@).take(2)),
                    "internal error: `array_push` return type is not an array"@,
                ),
            }),
        decreases args@, 1nat,
    {
        let c: u64 = self.counter;
        assert(nodes(args@).len() == args@.len());
        assert(nodes(args@)[0] == args@[0]@ && nodes(args@)[1] == args@[1]@);
        match ret {
            Type::Array(elem_ty) => {
                self.push_open();
                self.emit(cx, &args[0]);
                self.push_middle(cx, c, elem_ty);
                self.emit(cx, &args[1]);
                self.push_end(c, elem_ty);
            },
            _ => {
                assert(nodes(args@).take(2) =~= nodes(args@).subrange(0, 2));
                self.skip_range(args, 0, 2);
                self.fail(owned("internal error: `array_push` return type is not an array"));
            },
        }
    }

    /// Code for an intrinsic that reads its arguments by position.
    fn positional(&mut self, cx: &Tables, how: &Inline, name: &str, args: &Vec<IrExpr>, ret: &Type)
        requires
            cx.wf(),
            how@ == inlined(name@),
            needed(how@) > 0,
            args@.len() >= needed(how@),
        ensures
            final(self)@ == intrinsic(cx@, old(self)@, name@, nodes(args@), ret@),
        decreases args@, 2nat,
    {
        let c: u64 = self.counter;
        let n: usize = needs(how);
        proof {
            assert(nodes(args@).len() == args@.len());
            assert(nodes(args@)[0] == args@[0]@);
            assert(args@.len() > 1 ==> nodes(args@)[1] == args@[1]@);
            assert(nodes(args@).skip(n as int) =~= nodes(args@).subrange(
                n as int,
                args@.len() as int,
            ));
        }
        match how {
            Inline::One => self.emit(cx, &args[0]),
            Inline::Helper(helper) => {
                self.emit(cx, &args[0]);
                self.call_helper(helper);
            },
            Inline::Apply(text) => {
                self.emit(cx, &args[0]);
                self.instruction(text);
            },
            Inline::Pair(helper) => {
                self.emit(cx, &args[0]);
                self.emit(cx, &args[1]);
                self.call_helper(helper);
            },
            Inline::Concat => {
                self.concat_open();
                self.emit(cx, &args[0]);
                self.set_local(c);
                self.emit(cx, &args[1]);
                self.concat_end(cx, c);
            },
            Inline::ByteAt => {
                self.emit(cx, &args[0]);
                self.instruction("i32.const 4");
                self.instruction("i32.add");
                self.emit(cx, &args[1]);
                self.instruction("i32.add");
                self.instruction("i32.load8_u");
            },
            Inline::ArrayGet => {
                self.emit(cx, &args[0]);
                self.instruction("i32.const 4");
                self.instruction("i32.add");
                self.emit(cx, &args[1]);
                self.array_load(ret);
            },
            Inline::ArrayPush => self.array_push(cx, args, ret),
            _ => {},
        }
        self.skip_range(args, n, args.len());
    }

    fn intrinsic(&mut self, cx: &Tables, name: &str, args: &Vec<IrExpr>, ret: &Type)
        requires
            cx.wf(),
        ensures
            final(self)@ == intrinsic(cx@, old(self)@, name@, nodes(args@), ret@),
        decreases args@, 3nat,
    {
        let how = inline_of(name);
        let n: usize = needs(&how);
        assert(nodes(args@).len() == args@.len());
        if args.len() < n {
            self.skip_list(args);
            let mut message = owned("intrinsic `");
            message.push_str(name);
            message.push_str("` takes ");
            push_wide(&mut message, n as u128);
            message.push_str(" argument(s)");
            self.fail(message);
        } else if n > 0 {
            self.positional(cx, &how, name, args, ret);
        } else {
            self.all(cx, args);
            match how {
                Inline::Plain(text) => self.instruction(text),
                Inline::All(helper) => self.call_helper(helper),
                _ => {
                    let mut message = owned("backend `wasm-wasi` does not provide intrinsic `");
                    message.push_str(name);
                    message.push_str("`");
                    self.fail(message);
                },
            }
        }
    }

    /// Code for an expression that contains no other to emit here.
    fn leaf(&mut self, cx: &Tables, e: &IrExpr)
        requires
            cx.wf(),
            e is Int || e is Bool || e is Unit || e is Float || e is Char || e is String || e is Var
                || e is FunctionRef || e is Fn || e is Panic,
        ensures
            final(self)@ == emit(cx@, old(self)@, e@),
    {
        match e {
            IrExpr::Int(value) => self.integer(*value),
            IrExpr::Bool(value) => {
                if *value {
                    self.number(1)
                } else {
                    self.number(0)
                }
            },
            IrExpr::Unit => self.number(0),
            IrExpr::Float(text) => self.float(text.as_str()),
            IrExpr::Char(code) => self.number(*code as u128),
            IrExpr::String(value) => match find_text(&cx.strings, value.as_str()) {
                Some(i) => self.number(cx.offsets[i] as u128),
                None => self.fail(owned("internal error: string literal was not interned")),
            },
            IrExpr::Var { name, .. } => self.variable(name.as_str()),
            IrExpr::FunctionRef { name, .. } => match find_last(&cx.functions, name.as_str()) {
                Some(i) => self.function_ref(cx, i as u128),
                None => {
                    let mut message = owned("function `");
                    message.push_str(name.as_str());
                    message.push_str("` is not in the wasm table");
                    self.fail(message);
                },
            },
            IrExpr::Fn { captures, .. } => self.closure(cx, e, captures),
            IrExpr::Panic { message } => {
                self.instruction("unreachable");
                self.skip(count_lambdas(message));
            },
            _ => {},
        }
    }

    fn call(&mut self, cx: &Tables, e: &IrExpr)
        requires
            cx.wf(),
            e is Call,
        ensures
            final(self)@ == emit(cx@, old(self)@, e@),
        decreases e, 1nat,
    {
        if let IrExpr::Call { callee, args, ret } = e {
            let known: Option<&String> = match &**callee {
                IrExpr::FunctionRef { name, .. } => {
                    if find_last(&cx.functions, name.as_str()).is_some() {
                        Some(name)
                    } else {
                        None
                    }
                },
                _ => None,
            };
            match known {
                Some(name) => {
                    self.number(0);
                    self.all(cx, args);
                    self.call_function(name.as_str());
                },
                None => self.call_value(cx, e),
            }
            if is_throwing(callee) {
                self.unwrap_result(cx, ret);
            }
        }
    }

    /// Calls a closure value.
    fn call_value(&mut self, cx: &Tables, e: &IrExpr)
        requires
            cx.wf(),
            e is Call,
        ensures
            match e@ {
                Node::Call { callee, args, .. } => final(self)@ == (match node_ty(*callee) {
                    Ty::Function(f) => match position(cx@.sigs, type_sig(f)) {
                        Some(i) => call_closure(
                            emit_all(
                                cx@,
                                hold_closure(emit(cx@, old(self)@, *callee)),
                                args,
                            ),
                            emit(cx@, old(self)@, *callee).counter,
                            i,
                        ),
                        None => failed(
                            skip_all(skipping(old(self)@, fn_count(*callee)), args),
                            "internal error: indirect call signature was not declared"@,
                        ),
                    },
                    _ => failed(
                        skip_all(skipping(old(self)@, fn_count(*callee)), args),
                        "wasm backend cannot call a non-function value"@,
                    ),
                }),
                _ => true,
            },
        decreases e, 0nat,
    {
        if let IrExpr::Call { callee, args, .. } = e {
            match callee.ty() {
                Type::Function(f) => {
                    let sig = sig_of_type(&f);
                    match find_sig(&cx.sigs, &sig) {
                        Some(i) => {
                            self.emit(cx, callee);
                            let c: u64 = self.counter;
                            self.hold_closure();
                            self.all(cx, args);
                            self.call_closure(c, i);
                        },
                        None => {
                            self.skip(count_lambdas(callee));
                            self.skip_list(args);
                            self.fail(
                                owned(
                                    "internal error: indirect call signature was not declared",
                                ),
                            );
                        },
                    }
                },
                _ => {
                    self.skip(count_lambdas(callee));
                    self.skip_list(args);
                    self.fail(owned("wasm backend cannot call a non-function value"));
                },
            }
        }
    }

    /// Code for an expression whose value is built from others.
    fn built(&mut self, cx: &Tables, e: &IrExpr)
        requires
            cx.wf(),
            e is Binary || e is Platform || e is Intrinsic || e is CharFromCode
                || e is StringFromChar || e is Concat || e is Array || e is EnumValue
                || e is RecordValue || e is FieldAccess,
        ensures
            final(self)@ == emit(cx@, old(self)@, e@),
        decreases e, 0nat,
    {
        let c: u64 = self.counter;
        match e {
            IrExpr::Binary { op, ty, left, right } => {
                self.emit(cx, left);
                self.emit(cx, right);
                match instruction_of(*op, WasmTy::of(ty)) {
                    Some(text) => self.instruction(text),
                    None => self.fail(owned("internal error: operator has no instruction")),
                }
            },
            IrExpr::Platform { name, args, ret, throws } => {
                self.all(cx, args);
                let id = platform_wasm_name(name.as_str());
                self.call_named(id.as_str());
                if throws.is_some() {
                    self.unwrap_result(cx, ret);
                }
            },
            IrExpr::Intrinsic { name, args, ret } => self.intrinsic(cx, name.as_str(), args, ret),
            IrExpr::CharFromCode(value) => self.emit(cx, value),
            IrExpr::StringFromChar(value) => {
                self.emit(cx, value);
                self.call_helper("string_from_char");
            },
            IrExpr::Concat { left, right } => {
                self.concat_open();
                self.emit(cx, left);
                self.set_local(c);
                self.emit(cx, right);
                self.concat_end(cx, c);
            },
            IrExpr::Array { elem_ty, elems } => {
                assert(nodes(elems@).len() == elems@.len());
                self.array_open(cx, elem_ty, elems.len());
                let elem = WasmTy::of(elem_ty);
                self.stores(cx, c, elems, 4, elem.size(), Some(elem));
                self.get_local(c);
            },
            IrExpr::EnumValue { ty, tag, payload, .. } => {
                assert(nodes(payload@).len() == payload@.len());
                self.enum_open(cx, ty, *tag, payload.len());
                self.stores(cx, c, payload, 8, 8, None);
                self.get_local(c);
            },
            IrExpr::RecordValue { fields, .. } => {
                self.record_open(cx, mask_of(fields));
                self.stores(cx, c, fields, 0, 8, None);
                self.get_local(c);
            },
            IrExpr::FieldAccess { target, index, field_ty } => {
                self.emit(cx, target);
                self.field_load(*index, field_ty);
            },
            _ => {},
        }
    }

    /// Code for an expression that decides what is evaluated.
    fn control(&mut self, cx: &Tables, e: &IrExpr)
        requires
            cx.wf(),
            e is Let || e is Match || e is If || e is Throw || e is Try || e is Question
                || e is TailSelfCall || e is Retain || e is Release,
        ensures
            final(self)@ == emit(cx@, old(self)@, e@),
        decreases e, 0nat,
    {
        let c: u64 = self.counter;
        match e {
            IrExpr::Let { name, value_ty, value, next } => {
                self.emit(cx, value);
                self.let_bind(name, value_ty);
                self.emit(cx, next);
            },
            IrExpr::Match { scrutinee, arms, ty } => {
                let subject = self.fresh_local(WasmTy::I32);
                self.emit(cx, scrutinee);
                let label = numbered("$match_", self.counter);
                self.match_open(c, ty);
                self.arms(cx, subject.as_str(), arms, label.as_str());
                self.block_end();
            },
            IrExpr::If { cond, then, els, ty } => {
                self.emit(cx, cond);
                self.if_open(ty);
                self.emit(cx, then);
                self.instruction("else");
                self.emit(cx, els);
                self.instruction("end");
            },
            IrExpr::Throw { value } => {
                self.emit(cx, value);
                self.raise_error(cx);
            },
            IrExpr::Try { body, arms, ty, err_name } => {
                let mark: usize = self.managed_mark();
                let label = numbered("$try_", c);
                self.try_open(ty);
                self.emit(cx, body);
                let err = id_text(self.counter);
                self.try_close(c, mark);
                if let Some(name) = err_name {
                    self.hold_local(err.clone());
                    self.bind(name.clone(), Slot::Local(err.clone()));
                }
                self.arms(cx, err.as_str(), arms, label.as_str());
                self.block_end();
            },
            IrExpr::Question { value, .. } => self.emit(cx, value),
            IrExpr::TailSelfCall { args, .. } => {
                let temps = self.tail_call(cx, args);
                self.pass_all(&temps);
                self.instruction("br $tail");
            },
            IrExpr::Retain { value } => {
                self.emit(cx, value);
                self.call_helper("rc_retain");
            },
            IrExpr::Release { name, next, .. } => match self.local_of(name.as_str()) {
                Some(id) => {
                    self.drop_local(id.as_str());
                    self.emit(cx, next);
                },
                None => {
                    self.skip(count_lambdas(next));
                    let mut message = owned("release of a non-local binding `");
                    message.push_str(name.as_str());
                    message.push_str("` in wasm");
                    self.fail(message);
                },
            },
            _ => {},
        }
    }

    /// Emits code for an expression.
    pub fn emit(&mut self, cx: &Tables, e: &IrExpr)
        requires
            cx.wf(),
        ensures
            final(self)@ == emit(cx@, old(self)@, e@),
        decreases e, 2nat,
    {
        if matches!(
            e,
            IrExpr::Int(_)
                | IrExpr::Bool(_)
                | IrExpr::Unit
                | IrExpr::Float(_)
                | IrExpr::Char(_)
                | IrExpr::String(_)
                | IrExpr::Var { .. }
                | IrExpr::FunctionRef { .. }
                | IrExpr::Fn { .. }
                | IrExpr::Panic { .. }
        ) {
            self.leaf(cx, e)
        } else if matches!(e, IrExpr::Call { .. }) {
            self.call(cx, e)
        } else if matches!(
            e,
            IrExpr::Binary { .. }
                | IrExpr::Platform { .. }
                | IrExpr::Intrinsic { .. }
                | IrExpr::CharFromCode(_)
                | IrExpr::StringFromChar(_)
                | IrExpr::Concat { .. }
                | IrExpr::Array { .. }
                | IrExpr::EnumValue { .. }
                | IrExpr::RecordValue { .. }
                | IrExpr::FieldAccess { .. }
        ) {
            self.built(cx, e)
        } else {
            self.control(cx, e)
        }
    }
}

} // verus!
