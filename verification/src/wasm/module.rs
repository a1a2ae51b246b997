//! Module assembly.

use vstd::prelude::*;
use vstd::utf8::encode_utf8;

use super::code::{count_lambdas, emit, fn_count, inlined, wasm_provides_intrinsic};
use super::data::{
    collect_strings, heap_start, hex_bytes, literals, place_strings, push_hex, push_segments,
    segments,
};
use super::host::{
    glue_text, host_entry, host_glue, host_import, host_platform_provided, import_text,
    platform_glue, platform_import, push_host_glue, push_host_import,
};
use super::layout::{
    capture_layout, capture_offset, find_last, find_sig, fn_sig, last_position, position,
    result_ty, result_wasm_ty, sig_of_fn, sig_of_type, sig_views, type_sig, wasm_ty, Sig, WasmSig,
    WasmTy,
};
use super::pieces::{
    bound, holding, instruction, local_views, plus, started, wrap_ok, Cx, Em, FnEmitter, Slot,
    SlotT, Tables,
};
use super::runtime::{
    bytes_runtime, memory_runtime, push_bytes_runtime, push_memory_runtime, push_string_runtime,
    string_runtime, STRING_ORDER,
};
use super::shapes::{
    drop_functions, drop_name, drops_of, push_drop_functions, push_drop_name, DropTable,
};
use crate::backend::BackendError;
use crate::ir::{
    arm_nodes, capture_binds, node_ty, nodes, opt_text, param_binds, ArmNode, Bind, FnNode, IrArm,
    IrCapture, IrExpr, IrFunction, IrParam, IrProgram, Node,
};
use crate::ir_walk::{
    first_occurrences, intrinsic_names, platform_names, preorder, preorder_program, refs,
    used_intrinsics, used_platform_fns, walk, walk_program,
};
use crate::manifest::{
    compute_manifest, describes, manifest_json, serialize_manifest, CapabilityManifest,
};
use crate::platform::{platform_entries, Platform, PlatformFn};
use crate::strings::{begins_with, decimal, owned, push_wide, same, texts};
use crate::types::{heap, is_heap, Ty, Type};

verus! {

/// How many pages the linear memory starts with.
pub const MEMORY_PAGES: u32 = 16;

/// How many pages the linear memory may grow to: 16 MiB. Reaching it makes the
/// next allocation trap.
pub const MEMORY_MAX_PAGES: u32 = 256;

/// Whether an expression contains a self tail call outside of a lambda.
pub open spec fn jumps(e: Node) -> bool
    decreases e,
{
    match e {
        Node::TailSelfCall { .. } => true,
        Node::Array { elems, .. } => any_jumps(elems),
        Node::Let { value, next, .. } => jumps(*value) || jumps(*next),
        Node::Call { callee, args, .. } => jumps(*callee) || any_jumps(args),
        Node::Platform { args, .. } => any_jumps(args),
        Node::Intrinsic { args, .. } => any_jumps(args),
        Node::Binary { left, right, .. } => jumps(*left) || jumps(*right),
        Node::If { cond, then, els, .. } => jumps(*cond) || jumps(*then) || jumps(*els),
        Node::CharFromCode(value) => jumps(*value),
        Node::StringFromChar(value) => jumps(*value),
        Node::Concat { left, right } => jumps(*left) || jumps(*right),
        Node::EnumValue { payload, .. } => any_jumps(payload),
        Node::RecordValue { fields, .. } => any_jumps(fields),
        Node::FieldAccess { target, .. } => jumps(*target),
        Node::Match { scrutinee, arms, .. } => jumps(*scrutinee) || any_arm_jumps(arms),
        Node::Throw { value } => jumps(*value),
        Node::Try { body, arms, .. } => jumps(*body) || any_arm_jumps(arms),
        Node::Question { value, .. } => jumps(*value),
        Node::Panic { message } => jumps(*message),
        Node::Retain { value } => jumps(*value),
        Node::Release { next, .. } => jumps(*next),
        _ => false,
    }
}

/// Whether one of some expressions contains a self tail call.
pub open spec fn any_jumps(s: Seq<Node>) -> bool
    decreases s,
{
    s.len() > 0 && (any_jumps(s.drop_last()) || jumps(s.last()))
}

/// Whether one of some arms contains a self tail call.
pub open spec fn any_arm_jumps(s: Seq<ArmNode>) -> bool
    decreases s,
{
    s.len() > 0 && (any_arm_jumps(s.drop_last()) || arm_jumps(s.last()))
}

/// Whether an arm contains a self tail call.
pub open spec fn arm_jumps(arm: ArmNode) -> bool
    decreases arm,
{
    (match arm.guard {
        Some(guard) => jumps(*guard),
        None => false,
    }) || jumps(*arm.body)
}

fn any_tail_call(s: &Vec<IrExpr>) -> (r: bool)
    ensures
        r == any_jumps(nodes(s@)),
    decreases s@,
{
    let ghost views = nodes(s@);
    let mut found = false;
    let mut i: usize = 0;
    assert(views.take(0).len() == 0);
    while i < s.len()
        invariant
            i <= s.len(),
            views == nodes(s@),
            found == any_jumps(views.take(i as int)),
        decreases s.len() - i,
    {
        let here = contains_tail_self_call(&s[i]);
        found = found || here;
        proof {
            assert(views.take(i + 1).drop_last() =~= views.take(i as int));
            assert(views.take(i + 1).last() == s@[i as int]@);
        }
        i += 1;
    }
    assert(views.take(views.len() as int) =~= views);
    found
}

fn arm_tail_call(arm: &IrArm) -> (r: bool)
    ensures
        r == arm_jumps(arm@),
    decreases arm,
{
    let guarded = match &arm.guard {
        Some(guard) => contains_tail_self_call(guard),
        None => false,
    };
    guarded || contains_tail_self_call(&arm.body)
}

fn any_arm_tail_call(s: &Vec<IrArm>) -> (r: bool)
    ensures
        r == any_arm_jumps(arm_nodes(s@)),
    decreases s@,
{
    let ghost views = arm_nodes(s@);
    let mut found = false;
    let mut i: usize = 0;
    assert(views.take(0).len() == 0);
    while i < s.len()
        invariant
            i <= s.len(),
            views == arm_nodes(s@),
            found == any_arm_jumps(views.take(i as int)),
        decreases s.len() - i,
    {
        let here = arm_tail_call(&s[i]);
        found = found || here;
        proof {
            assert(views.take(i + 1).drop_last() =~= views.take(i as int));
            assert(views.take(i + 1).last() == s@[i as int]@);
        }
        i += 1;
    }
    assert(views.take(views.len() as int) =~= views);
    found
}

/// Whether an expression contains a self tail call outside of a lambda.
pub fn contains_tail_self_call(e: &IrExpr) -> (r: bool)
    ensures
        r == jumps(e@),
    decreases e,
{
    match e {
        IrExpr::TailSelfCall { .. } => true,
        IrExpr::Array { elems, .. } => any_tail_call(elems),
        IrExpr::Let { value, next, .. } => {
            contains_tail_self_call(value) || contains_tail_self_call(next)
        },
        IrExpr::Call { callee, args, .. } => {
            contains_tail_self_call(callee) || any_tail_call(args)
        },
        IrExpr::Platform { args, .. } => any_tail_call(args),
        IrExpr::Intrinsic { args, .. } => any_tail_call(args),
        IrExpr::Binary { left, right, .. } => {
            contains_tail_self_call(left) || contains_tail_self_call(right)
        },
        IrExpr::If { cond, then, els, .. } => {
            contains_tail_self_call(cond) || contains_tail_self_call(then)
                || contains_tail_self_call(els)
        },
        IrExpr::CharFromCode(value) => contains_tail_self_call(value),
        IrExpr::StringFromChar(value) => contains_tail_self_call(value),
        IrExpr::Concat { left, right } => {
            contains_tail_self_call(left) || contains_tail_self_call(right)
        },
        IrExpr::EnumValue { payload, .. } => any_tail_call(payload),
        IrExpr::RecordValue { fields, .. } => any_tail_call(fields),
        IrExpr::FieldAccess { target, .. } => contains_tail_self_call(target),
        IrExpr::Match { scrutinee, arms, .. } => {
            contains_tail_self_call(scrutinee) || any_arm_tail_call(arms)
        },
        IrExpr::Throw { value } => contains_tail_self_call(value),
        IrExpr::Try { body, arms, .. } => contains_tail_self_call(body) || any_arm_tail_call(arms),
        IrExpr::Question { value, .. } => contains_tail_self_call(value),
        IrExpr::Panic { message } => contains_tail_self_call(message),
        IrExpr::Retain { value } => contains_tail_self_call(value),
        IrExpr::Release { next, .. } => contains_tail_self_call(next),
        _ => false,
    }
}

/// The names that are released among some expressions.
pub open spec fn released_names(s: Seq<Node>) -> Seq<Seq<char>>
    decreases s.len(),
{
    if s.len() == 0 {
        Seq::empty()
    } else {
        match s.last() {
            Node::Release { name, .. } => released_names(s.drop_last()).push(name),
            _ => released_names(s.drop_last()),
        }
    }
}

fn names_released(body: &IrExpr) -> (r: Vec<String>)
    ensures
        texts(r@) == released_names(preorder(body@)),
{
    let all = walk(body);
    let ghost views = refs(all@);
    let mut out: Vec<String> = Vec::new();
    let mut i: usize = 0;
    assert(views.take(0).len() == 0);
    assert(texts(out@) =~= released_names(views.take(0)));
    while i < all.len()
        invariant
            i <= all.len(),
            views == refs(all@),
            texts(out@) == released_names(views.take(i as int)),
        decreases all.len() - i,
    {
        proof {
            assert(views.take(i + 1).drop_last() =~= views.take(i as int));
            assert(views.take(i + 1).last() == all@[i as int]@);
        }
        if let IrExpr::Release { name, .. } = all[i] {
            let ghost before = texts(out@);
            out.push(name.clone());
            assert(texts(out@) =~= before.push(name@));
        }
        i += 1;
    }
    assert(views.take(views.len() as int) =~= views);
    out
}

/// The first `n` parameters in scope. Parameter 0 is the closure environment; the
/// declared ones follow. Heap parameters are released on an unwind.
pub open spec fn bind_params(st: Em, params: Seq<Bind>, n: nat) -> Em
    decreases n,
{
    if n == 0 {
        st
    } else {
        let before = bind_params(st, params, (n - 1) as nat);
        let local = "$p"@ + decimal(n);
        let param = params[n - 1];
        bound(
            if heap(param.ty) {
                holding(before, local)
            } else {
                before
            },
            param.name,
            SlotT::Local(local),
        )
    }
}

/// The first `n` captures in scope.
pub open spec fn bind_captures(st: Em, captures: Seq<Bind>, n: nat) -> Em
    decreases n,
{
    if n == 0 {
        st
    } else {
        bound(
            bind_captures(st, captures, (n - 1) as nat),
            captures[n - 1].name,
            SlotT::Capture(capture_offset(captures, n - 1), wasm_ty(captures[n - 1].ty)),
        )
    }
}

/// A function to emit: a top-level function or a lambda.
#[verifier::ext_equal]
pub struct Callable {
    pub params: Seq<Bind>,
    pub ret: Ty,
    pub throws: bool,
    pub captures: Seq<Bind>,
    pub body: Node,
}

/// A function that has been emitted. `first` is how many lambdas of the module
/// come before the first in its body. A body with self tail calls runs inside a
/// loop; a throwing function wraps its success value.
pub open spec fn function_code(cx: Cx, f: Callable, first: nat) -> Em {
    let start = started(released_names(preorder(f.body)), first);
    let params = bind_params(start, f.params, f.params.len());
    let scoped = bind_captures(params, f.captures, f.captures.len());
    let looping = jumps(f.body);
    let opened = if looping {
        instruction(scoped, "(loop $tail (result "@ + wasm_ty(f.ret).keyword_text() + ")"@)
    } else {
        scoped
    };
    let done = emit(cx, opened, f.body);
    let closed = if looping {
        instruction(done, ")"@)
    } else {
        done
    };
    if f.throws {
        wrap_ok(cx, closed, f.ret)
    } else {
        closed
    }
}

/// The declarations of the first `n` parameters.
pub open spec fn param_decls(out: Seq<char>, params: Seq<Bind>, n: nat) -> Seq<char>
    decreases n,
{
    if n == 0 {
        out
    } else {
        param_decls(out, params, (n - 1) as nat) + " (param $p"@ + decimal(n) + " "@ + wasm_ty(
            params[n - 1].ty,
        ).keyword_text() + ")"@
    }
}

/// The declarations of the first `n` locals.
pub open spec fn local_decls(out: Seq<char>, locals: Seq<(Seq<char>, WasmTy)>, n: nat) -> Seq<char>
    decreases n,
{
    if n == 0 {
        out
    } else {
        local_decls(out, locals, (n - 1) as nat) + "    (local "@ + locals[n - 1].0 + " "@
            + locals[n - 1].1.keyword_text() + ")\n"@
    }
}

/// The text of a function.
pub open spec fn function_text(out: Seq<char>, name: Seq<char>, f: Callable, code: Em) -> Seq<char> {
    let head = param_decls(
        out + "  (func "@ + name + " (param $p0 i32)"@,
        f.params,
        f.params.len(),
    ) + " (result "@ + result_ty(f.ret, f.throws).keyword_text() + ")\n"@;
    local_decls(head, code.locals, code.locals.len()) + code.code + ")\n"@
}

fn push_params(out: &mut String, params: &Vec<IrParam>)
    ensures
        final(out)@ == param_decls(old(out)@, param_binds(params@), params@.len()),
{
    let ghost all = param_binds(params@);
    let mut i: usize = 0;
    while i < params.len()
        invariant
            i <= params.len(),
            all == param_binds(params@),
            out@ == param_decls(old(out)@, all, i as nat),
        decreases params.len() - i,
    {
        out.push_str(" (param $p");
        push_wide(out, i as u128 + 1);
        out.push_str(" ");
        out.push_str(WasmTy::of(&params[i].ty).keyword());
        out.push_str(")");
        i += 1;
    }
}

fn push_locals(out: &mut String, locals: &Vec<(String, WasmTy)>)
    ensures
        final(out)@ == local_decls(old(out)@, local_views(locals@), locals@.len()),
{
    let ghost all = local_views(locals@);
    let mut i: usize = 0;
    while i < locals.len()
        invariant
            i <= locals.len(),
            all == local_views(locals@),
            out@ == local_decls(old(out)@, all, i as nat),
        decreases locals.len() - i,
    {
        out.push_str("    (local ");
        out.push_str(locals[i].0.as_str());
        out.push_str(" ");
        out.push_str(locals[i].1.keyword());
        out.push_str(")\n");
        i += 1;
    }
}

fn scope_params(em: &mut FnEmitter, params: &Vec<IrParam>)
    ensures
        final(em)@ == bind_params(old(em)@, param_binds(params@), params@.len()),
{
    let ghost all = param_binds(params@);
    let mut i: usize = 0;
    while i < params.len()
        invariant
            i <= params.len(),
            all == param_binds(params@),
            em@ == bind_params(old(em)@, all, i as nat),
        decreases params.len() - i,
    {
        let mut local = owned("$p");
        push_wide(&mut local, i as u128 + 1);
        if is_heap(&params[i].ty) {
            em.hold_local(local.clone());
        }
        em.bind(params[i].name.clone(), Slot::Local(local));
        i += 1;
    }
}

fn scope_captures(em: &mut FnEmitter, captures: &Vec<IrCapture>)
    ensures
        final(em)@ == bind_captures(old(em)@, capture_binds(captures@), captures@.len()),
{
    let ghost all = capture_binds(captures@);
    let (offsets, _size) = capture_layout(captures);
    let mut i: usize = 0;
    while i < captures.len()
        invariant
            i <= captures.len(),
            all == capture_binds(captures@),
            offsets@.len() == captures@.len(),
            forall|k: int|
                0 <= k < captures@.len() ==> #[trigger] offsets@[k] == capture_offset(all, k),
            em@ == bind_captures(old(em)@, all, i as nat),
        decreases captures.len() - i,
    {
        em.bind(
            captures[i].name.clone(),
            Slot::Capture(offsets[i], WasmTy::of(&captures[i].ty)),
        );
        i += 1;
    }
}

/// The functions of a module so far, and the first error.
pub struct Functions {
    pub text: String,
    pub error: Option<String>,
}

/// What [`Functions`] say.
#[verifier::ext_equal]
pub struct Emitted {
    pub text: Seq<char>,
    pub error: Option<Seq<char>>,
}

impl Functions {
    pub open spec fn view(&self) -> Emitted {
        Emitted { text: self.text@, error: opt_text(self.error) }
    }
}

/// One more function.
pub open spec fn with_function(cx: Cx, out: Emitted, name: Seq<char>, f: Callable, first: nat) -> Emitted {
    let code = function_code(cx, f, first);
    Emitted {
        text: function_text(out.text, name, f, code),
        error: if out.error is Some {
            out.error
        } else {
            code.error
        },
    }
}

fn emit_fn_like(
    cx: &Tables,
    out: &mut Functions,
    name: &str,
    params: &Vec<IrParam>,
    ret: &Type,
    throws: &Option<Type>,
    captures: &Vec<IrCapture>,
    body: &IrExpr,
    first: usize,
)
    requires
        cx.wf(),
    ensures
        final(out)@ == with_function(
            cx@,
            old(out)@,
            name@,
            Callable {
                params: param_binds(params@),
                ret: ret@,
                throws: throws is Some,
                captures: capture_binds(captures@),
                body: body@,
            },
            first as nat,
        ),
{
    let mut em = FnEmitter::new(names_released(body), first);
    scope_params(&mut em, params);
    scope_captures(&mut em, captures);
    let looping = contains_tail_self_call(body);
    if looping {
        let mut head = owned("(loop $tail (result ");
        head.push_str(WasmTy::of(ret).keyword());
        head.push_str(")");
        em.instruction(head.as_str());
    }
    em.emit(cx, body);
    if looping {
        em.instruction(")");
    }
    if throws.is_some() {
        em.wrap_ok(cx, ret);
    }
    proof {
        assert(param_binds(params@).len() == params@.len());
        assert(capture_binds(captures@).len() == captures@.len());
        assert(local_views(em.locals@).len() == em.locals@.len());
    }
    out.text.push_str("  (func ");
    out.text.push_str(name);
    out.text.push_str(" (param $p0 i32)");
    push_params(&mut out.text, params);
    out.text.push_str(" (result ");
    out.text.push_str(result_wasm_ty(ret, throws.is_some()).keyword());
    out.text.push_str(")\n");
    push_locals(&mut out.text, &em.locals);
    out.text.push_str(em.code.as_str());
    out.text.push_str(")\n");
    if out.error.is_none() {
        out.error = em.error;
    }
}

/// A top-level function.
pub open spec fn callable(f: FnNode) -> Callable {
    Callable {
        params: f.params,
        ret: f.ret,
        throws: f.throws is Some,
        captures: Seq::empty(),
        body: f.body,
    }
}

/// How many lambdas come before those of function `i`.
pub open spec fn lambdas_before(p: Seq<FnNode>, i: nat) -> nat
    decreases i,
{
    if i == 0 {
        0
    } else {
        plus(lambdas_before(p, (i - 1) as nat), fn_count(p[i - 1].body))
    }
}

/// The first `n` top-level functions.
pub open spec fn functions_text(cx: Cx, out: Emitted, p: Seq<FnNode>, n: nat) -> Emitted
    decreases n,
{
    if n == 0 {
        out
    } else {
        let f = p[n - 1];
        with_function(
            cx,
            functions_text(cx, out, p, (n - 1) as nat),
            "$f_"@ + f.name,
            callable(f),
            lambdas_before(p, (n - 1) as nat),
        )
    }
}

/// The lambdas among some expressions.
pub open spec fn lambda_nodes(s: Seq<Node>) -> Seq<Node>
    decreases s.len(),
{
    if s.len() == 0 {
        Seq::empty()
    } else if s.last() is Fn {
        lambda_nodes(s.drop_last()).push(s.last())
    } else {
        lambda_nodes(s.drop_last())
    }
}

/// A lambda.
pub open spec fn lambda_callable(e: Node) -> Callable {
    match e {
        Node::Fn { params, ret, throws, captures, body, .. } => Callable {
            params,
            ret,
            throws: throws is Some,
            captures,
            body: *body,
        },
        _ => Callable {
            params: Seq::empty(),
            ret: Ty::Unit,
            throws: false,
            captures: Seq::empty(),
            body: Node::Unit,
        },
    }
}

/// The first `n` lambdas.
pub open spec fn lambdas_text(cx: Cx, out: Emitted, s: Seq<Node>, n: nat) -> Emitted
    decreases n,
{
    if n == 0 {
        out
    } else {
        with_function(
            cx,
            lambdas_text(cx, out, s, (n - 1) as nat),
            "$lambda_"@ + decimal((n - 1) as nat),
            lambda_callable(s[n - 1]),
            n,
        )
    }
}

fn push_functions(cx: &Tables, out: &mut Functions, program: &IrProgram)
    requires
        cx.wf(),
    ensures
        final(out)@ == functions_text(cx@, old(out)@, program@, program@.len()),
{
    let ghost p = program@;
    let mut first: usize = 0;
    let mut i: usize = 0;
    while i < program.functions.len()
        invariant
            i <= program.functions.len(),
            cx.wf(),
            p == program@,
            first == lambdas_before(p, i as nat),
            out@ == functions_text(cx@, old(out)@, p, i as nat),
        decreases program.functions.len() - i,
    {
        let f = &program.functions[i];
        assert(p[i as int] == f@);
        let mut name = owned("$f_");
        name.push_str(f.name.as_str());
        let none: Vec<IrCapture> = Vec::new();
        assert(capture_binds(none@) =~= Seq::<Bind>::empty());
        assert(f@.throws is Some == f.throws is Some);
        emit_fn_like(
            cx,
            out,
            name.as_str(),
            &f.params,
            &f.ret,
            &f.throws,
            &none,
            &f.body,
            first,
        );
        let more: usize = count_lambdas(&f.body);
        if more <= usize::MAX - first {
            first = first + more;
        } else {
            first = usize::MAX;
        }
        i += 1;
    }
    assert(p.len() == program.functions@.len());
}

fn push_lambda(cx: &Tables, out: &mut Functions, e: &IrExpr, i: usize)
    requires
        cx.wf(),
        e is Fn,
        i < usize::MAX,
    ensures
        final(out)@ == with_function(
            cx@,
            old(out)@,
            "$lambda_"@ + decimal(i as nat),
            lambda_callable(e@),
            (i + 1) as nat,
        ),
{
    let mut name = owned("$lambda_");
    push_wide(&mut name, i as u128);
    if let IrExpr::Fn { params, ret, throws, captures, body, .. } = e {
        assert(match e@ {
            Node::Fn { throws: t, .. } => t is Some == throws is Some,
            _ => false,
        });
        emit_fn_like(cx, out, name.as_str(), params, ret, throws, captures, body, i + 1);
    }
}

fn push_lambdas(cx: &Tables, out: &mut Functions, s: &Vec<&IrExpr>)
    requires
        cx.wf(),
        forall|i: int| 0 <= i < s@.len() ==> (#[trigger] s@[i]) is Fn,
    ensures
        final(out)@ == lambdas_text(cx@, old(out)@, refs(s@), s@.len()),
{
    let ghost views = refs(s@);
    let mut i: usize = 0;
    while i < s.len()
        invariant
            i <= s.len(),
            cx.wf(),
            forall|k: int| 0 <= k < s@.len() ==> (#[trigger] s@[k]) is Fn,
            views == refs(s@),
            out@ == lambdas_text(cx@, old(out)@, views, i as nat),
        decreases s.len() - i,
    {
        assert(views[i as int] == s@[i as int]@);
        push_lambda(cx, out, s[i], i);
        i += 1;
    }
}

fn collect_lambdas<'a>(all: &Vec<&'a IrExpr>) -> (r: Vec<&'a IrExpr>)
    ensures
        refs(r@) == lambda_nodes(refs(all@)),
        forall|i: int| 0 <= i < r@.len() ==> (#[trigger] r@[i]) is Fn,
{
    let ghost views = refs(all@);
    let mut out: Vec<&'a IrExpr> = Vec::new();
    let mut i: usize = 0;
    assert(views.take(0).len() == 0);
    assert(refs(out@) =~= lambda_nodes(views.take(0)));
    while i < all.len()
        invariant
            i <= all.len(),
            views == refs(all@),
            refs(out@) == lambda_nodes(views.take(i as int)),
            forall|k: int| 0 <= k < out@.len() ==> (#[trigger] out@[k]) is Fn,
        decreases all.len() - i,
    {
        proof {
            assert(views.take(i + 1).drop_last() =~= views.take(i as int));
            assert(views.take(i + 1).last() == all@[i as int]@);
        }
        if let IrExpr::Fn { .. } = all[i] {
            let ghost before = refs(out@);
            out.push(all[i]);
            assert(refs(out@) =~= before.push(all@[i as int]@));
        }
        i += 1;
    }
    assert(views.take(views.len() as int) =~= views);
    out
}

/// The names of the functions of a program.
pub open spec fn function_names(p: Seq<FnNode>) -> Seq<Seq<char>> {
    p.map_values(|f: FnNode| f.name)
}

fn names_of_functions(program: &IrProgram) -> (r: Vec<String>)
    ensures
        texts(r@) == function_names(program@),
{
    let mut out: Vec<String> = Vec::new();
    let mut i: usize = 0;
    while i < program.functions.len()
        invariant
            i <= program.functions.len(),
            out@.len() == i,
            forall|k: int| 0 <= k < i ==> (#[trigger] out@[k])@ == program@[k].name,
        decreases program.functions.len() - i,
    {
        out.push(program.functions[i].name.clone());
        i += 1;
    }
    assert(texts(out@) =~= function_names(program@));
    out
}

/// One more signature, if it is new.
pub open spec fn with_sig(s: Seq<Sig>, sig: Sig) -> Seq<Sig> {
    if position(s, sig) is Some {
        s
    } else {
        s.push(sig)
    }
}

fn push_sig(s: &mut Vec<WasmSig>, sig: WasmSig)
    ensures
        sig_views(final(s)@) == with_sig(sig_views(old(s)@), sig@),
{
    if find_sig(s, &sig).is_none() {
        s.push(sig);
        assert(sig_views(s@) =~= sig_views(old(s)@).push(sig@));
    }
}

/// The signatures of the functions: every table entry can be the target of an
/// indirect call.
pub open spec fn function_sigs(p: Seq<FnNode>) -> Seq<Sig>
    decreases p.len(),
{
    if p.len() == 0 {
        Seq::empty()
    } else {
        with_sig(
            function_sigs(p.drop_last()),
            fn_sig(p.last().params, p.last().ret, p.last().throws is Some),
        )
    }
}

/// And of the lambdas.
pub open spec fn lambda_sigs(sigs: Seq<Sig>, s: Seq<Node>) -> Seq<Sig>
    decreases s.len(),
{
    if s.len() == 0 {
        sigs
    } else {
        let f = lambda_callable(s.last());
        with_sig(lambda_sigs(sigs, s.drop_last()), fn_sig(f.params, f.ret, f.throws))
    }
}

/// Whether a callee is one of the functions, called directly.
pub open spec fn is_direct(functions: Seq<Seq<char>>, callee: Node) -> bool {
    match callee {
        Node::FunctionRef { name, .. } => last_position(functions, name) is Some,
        _ => false,
    }
}

/// And of every indirect call site.
pub open spec fn call_sigs(sigs: Seq<Sig>, functions: Seq<Seq<char>>, s: Seq<Node>) -> Seq<Sig>
    decreases s.len(),
{
    if s.len() == 0 {
        sigs
    } else {
        let before = call_sigs(sigs, functions, s.drop_last());
        match s.last() {
            Node::Call { callee, .. } => match node_ty(*callee) {
                Ty::Function(f) => if is_direct(functions, *callee) {
                    before
                } else {
                    with_sig(before, type_sig(f))
                },
                _ => before,
            },
            _ => before,
        }
    }
}

/// The distinct signatures of a program.
pub open spec fn module_sigs(p: Seq<FnNode>) -> Seq<Sig> {
    call_sigs(
        lambda_sigs(function_sigs(p), lambda_nodes(preorder_program(p))),
        function_names(p),
        preorder_program(p),
    )
}

fn push_function_sigs(sigs: &mut Vec<WasmSig>, program: &IrProgram)
    requires
        old(sigs)@.len() == 0,
    ensures
        sig_views(final(sigs)@) == function_sigs(program@),
{
    let ghost p = program@;
    let mut i: usize = 0;
    assert(p.take(0).len() == 0);
    assert(sig_views(sigs@) =~= function_sigs(p.take(0)));
    while i < program.functions.len()
        invariant
            i <= program.functions.len(),
            p == program@,
            sig_views(sigs@) == function_sigs(p.take(i as int)),
        decreases program.functions.len() - i,
    {
        let f = &program.functions[i];
        proof {
            assert(p.take(i + 1).drop_last() =~= p.take(i as int));
            assert(p.take(i + 1).last() == f@);
            assert(f@.throws is Some == f.throws is Some);
        }
        push_sig(sigs, sig_of_fn(&f.params, &f.ret, &f.throws));
        i += 1;
    }
    assert(p.take(p.len() as int) =~= p);
}

fn push_lambda_sigs(sigs: &mut Vec<WasmSig>, s: &Vec<&IrExpr>)
    requires
        forall|i: int| 0 <= i < s@.len() ==> (#[trigger] s@[i]) is Fn,
    ensures
        sig_views(final(sigs)@) == lambda_sigs(sig_views(old(sigs)@), refs(s@)),
{
    let ghost views = refs(s@);
    let mut i: usize = 0;
    assert(views.take(0).len() == 0);
    while i < s.len()
        invariant
            i <= s.len(),
            forall|k: int| 0 <= k < s@.len() ==> (#[trigger] s@[k]) is Fn,
            views == refs(s@),
            sig_views(sigs@) == lambda_sigs(sig_views(old(sigs)@), views.take(i as int)),
        decreases s.len() - i,
    {
        proof {
            assert(views.take(i + 1).drop_last() =~= views.take(i as int));
            assert(views.take(i + 1).last() == s@[i as int]@);
            assert(s@[i as int] is Fn);
        }
        if let IrExpr::Fn { params, ret, throws, .. } = s[i] {
            assert(match s@[i as int]@ {
                Node::Fn { throws: t, .. } => t is Some == throws is Some,
                _ => false,
            });
            push_sig(sigs, sig_of_fn(params, ret, throws));
        }
        i += 1;
    }
    assert(views.take(views.len() as int) =~= views);
}

fn called_directly(functions: &Vec<String>, callee: &IrExpr) -> (r: bool)
    ensures
        r == is_direct(texts(functions@), callee@),
{
    match callee {
        IrExpr::FunctionRef { name, .. } => find_last(functions, name.as_str()).is_some(),
        _ => false,
    }
}

fn push_call_sigs(sigs: &mut Vec<WasmSig>, functions: &Vec<String>, s: &Vec<&IrExpr>)
    ensures
        sig_views(final(sigs)@) == call_sigs(
            sig_views(old(sigs)@),
            texts(functions@),
            refs(s@),
        ),
{
    let ghost views = refs(s@);
    let mut i: usize = 0;
    assert(views.take(0).len() == 0);
    while i < s.len()
        invariant
            i <= s.len(),
            views == refs(s@),
            sig_views(sigs@) == call_sigs(
                sig_views(old(sigs)@),
                texts(functions@),
                views.take(i as int),
            ),
        decreases s.len() - i,
    {
        proof {
            assert(views.take(i + 1).drop_last() =~= views.take(i as int));
            assert(views.take(i + 1).last() == s@[i as int]@);
        }
        if let IrExpr::Call { callee, .. } = s[i] {
            if let Type::Function(f) = callee.ty() {
                if !called_directly(functions, callee) {
                    push_sig(sigs, sig_of_type(&f));
                }
            }
        }
        i += 1;
    }
    assert(views.take(views.len() as int) =~= views);
}

/// The parameters of a signature.
pub open spec fn sig_params(out: Seq<char>, s: Seq<WasmTy>) -> Seq<char>
    decreases s.len(),
{
    if s.len() == 0 {
        out
    } else {
        sig_params(out, s.drop_last()) + " (param "@ + s.last().keyword_text() + ")"@
    }
}

/// The types of the first `n` signatures.
pub open spec fn types_text(out: Seq<char>, sigs: Seq<Sig>, n: nat) -> Seq<char>
    decreases n,
{
    if n == 0 {
        out
    } else {
        let sig = sigs[n - 1];
        sig_params(
            types_text(out, sigs, (n - 1) as nat) + "  (type $sig_"@ + decimal((n - 1) as nat)
                + " (func"@,
            sig.params,
        ) + " (result "@ + sig.result.keyword_text() + ")))\n"@
    }
}

fn push_sig_params(out: &mut String, s: &Vec<WasmTy>)
    ensures
        final(out)@ == sig_params(old(out)@, s@),
{
    let mut i: usize = 0;
    assert(s@.take(0).len() == 0);
    while i < s.len()
        invariant
            i <= s.len(),
            out@ == sig_params(old(out)@, s@.take(i as int)),
        decreases s.len() - i,
    {
        out.push_str(" (param ");
        out.push_str(s[i].keyword());
        out.push_str(")");
        proof {
            assert(s@.take(i + 1).drop_last() =~= s@.take(i as int));
            assert(s@.take(i + 1).last() == s@[i as int]);
        }
        i += 1;
    }
    assert(s@.take(s@.len() as int) =~= s@);
}

fn push_types(out: &mut String, sigs: &Vec<WasmSig>)
    ensures
        final(out)@ == types_text(old(out)@, sig_views(sigs@), sigs@.len()),
{
    let ghost all = sig_views(sigs@);
    let mut i: usize = 0;
    while i < sigs.len()
        invariant
            i <= sigs.len(),
            all == sig_views(sigs@),
            out@ == types_text(old(out)@, all, i as nat),
        decreases sigs.len() - i,
    {
        out.push_str("  (type $sig_");
        push_wide(out, i as u128);
        out.push_str(" (func");
        push_sig_params(out, &sigs[i].params);
        out.push_str(" (result ");
        out.push_str(sigs[i].result.keyword());
        out.push_str(")))\n");
        i += 1;
    }
}

/// The table entries of the first `n` functions. Where a name is declared twice,
/// only the last has an entry.
pub open spec fn function_entries(out: Seq<char>, names: Seq<Seq<char>>, n: nat) -> Seq<char>
    decreases n,
{
    if n == 0 {
        out
    } else {
        let before = function_entries(out, names, (n - 1) as nat) + " "@;
        if last_position(names, names[n - 1]) == Some((n - 1) as nat) {
            before + "$f_"@ + names[n - 1]
        } else {
            before
        }
    }
}

/// The table entries of the first `n` lambdas.
pub open spec fn lambda_entries(out: Seq<char>, n: nat) -> Seq<char>
    decreases n,
{
    if n == 0 {
        out
    } else {
        lambda_entries(out, (n - 1) as nat) + " $lambda_"@ + decimal((n - 1) as nat)
    }
}

/// The table entries of the first `n` drop functions.
pub open spec fn drop_entries(out: Seq<char>, cx: Cx, n: nat) -> Seq<char>
    decreases n,
{
    if n == 0 {
        out
    } else {
        drop_name(
            drop_entries(out, cx, (n - 1) as nat) + " "@,
            cx.drops.keys[n - 1],
            (n - 1) as nat,
        )
    }
}

/// The function table: functions, then lambdas, then drop functions.
pub open spec fn table_text(out: Seq<char>, cx: Cx) -> Seq<char> {
    let total = cx.functions.len() + cx.lambdas + cx.drops.keys.len();
    let head = out + "  (table "@ + decimal(total) + " funcref)\n  (elem (i32.const 0)"@;
    let functions = function_entries(head, cx.functions, cx.functions.len());
    drop_entries(lambda_entries(functions, cx.lambdas), cx, cx.drops.keys.len()) + ")\n"@
}

fn push_table(out: &mut String, cx: &Tables)
    ensures
        final(out)@ == table_text(old(out)@, cx@),
{
    let ghost names = texts(cx.functions@);
    let ghost view = cx@;
    out.push_str("  (table ");
    push_wide(
        out,
        cx.functions.len() as u128 + cx.lambdas as u128 + cx.drops.keys.len() as u128,
    );
    out.push_str(" funcref)\n  (elem (i32.const 0)");
    let ghost head = out@;
    let mut i: usize = 0;
    while i < cx.functions.len()
        invariant
            i <= cx.functions.len(),
            names == texts(cx.functions@),
            out@ == function_entries(head, names, i as nat),
        decreases cx.functions.len() - i,
    {
        assert(names[i as int] == cx.functions@[i as int]@);
        out.push_str(" ");
        let last = match find_last(&cx.functions, cx.functions[i].as_str()) {
            Some(k) => k == i,
            None => false,
        };
        if last {
            out.push_str("$f_");
            out.push_str(cx.functions[i].as_str());
        }
        i += 1;
    }
    let ghost functions = out@;
    let mut k: usize = 0;
    while k < cx.lambdas
        invariant
            k <= cx.lambdas,
            out@ == lambda_entries(functions, k as nat),
        decreases cx.lambdas - k,
    {
        out.push_str(" $lambda_");
        push_wide(out, k as u128);
        k += 1;
    }
    let ghost lambdas = out@;
    let mut j: usize = 0;
    while j < cx.drops.keys.len()
        invariant
            j <= cx.drops.keys.len(),
            view == cx@,
            out@ == drop_entries(lambdas, view, j as nat),
        decreases cx.drops.keys.len() - j,
    {
        assert(view.drops.keys[j as int] == cx.drops.keys@[j as int]@);
        out.push_str(" ");
        push_drop_name(out, &cx.drops.keys[j], j);
        j += 1;
    }
    out.push_str(")\n");
}

/// The entry point. An `Int` result of `main` is the exit code; an owned heap
/// result is released, so that a clean run ends with nothing live; any other
/// result is dropped.
pub open spec fn start_text(out: Seq<char>, ret: Ty) -> Seq<char> {
    let called = out + "  (func $_start\n    i32.const 0\n    call $f_main\n"@;
    if ret is Int {
        called + "    call $proc_exit)\n"@
    } else if heap(ret) {
        called + "    call $rc_release\n    i32.const 0\n    call $proc_exit)\n"@
    } else {
        called + "    drop\n    i32.const 0\n    call $proc_exit)\n"@
    }
}

fn push_start(out: &mut String, ret: &Type)
    ensures
        final(out)@ == start_text(old(out)@, ret@),
{
    out.push_str("  (func $_start\n    i32.const 0\n    call $f_main\n");
    if matches!(ret, Type::Int) {
        out.push_str("    call $proc_exit)\n");
    } else if is_heap(ret) {
        out.push_str("    call $rc_release\n    i32.const 0\n    call $proc_exit)\n");
    } else {
        out.push_str("    drop\n    i32.const 0\n    call $proc_exit)\n");
    }
}

/// The imports of the first `n` platform functions.
pub open spec fn imports_text(out: Seq<char>, used: Seq<Seq<char>>, registry: Seq<Platform>, n: nat) -> Seq<char>
    decreases n,
{
    if n == 0 {
        out
    } else {
        let before = imports_text(out, used, registry, (n - 1) as nat);
        match import_text(used[n - 1]) {
            Some(text) => before + text,
            None => host_import(before, used[n - 1], registry),
        }
    }
}

/// The glue of the first `n` platform functions.
pub open spec fn glues_text(out: Seq<char>, used: Seq<Seq<char>>, registry: Seq<Platform>, n: nat) -> Seq<char>
    decreases n,
{
    if n == 0 {
        out
    } else {
        let before = glues_text(out, used, registry, (n - 1) as nat);
        match glue_text(used[n - 1]) {
            Some(text) => before + text,
            None => host_glue(before, used[n - 1], registry),
        }
    }
}

fn push_imports(out: &mut String, used: &Vec<String>, registry: &Vec<PlatformFn>)
    ensures
        final(out)@ == imports_text(
            old(out)@,
            texts(used@),
            platform_entries(registry@),
            used@.len(),
        ),
{
    let ghost all = texts(used@);
    let mut i: usize = 0;
    while i < used.len()
        invariant
            i <= used.len(),
            all == texts(used@),
            out@ == imports_text(old(out)@, all, platform_entries(registry@), i as nat),
        decreases used.len() - i,
    {
        assert(all[i as int] == used@[i as int]@);
        match platform_import(used[i].as_str()) {
            Some(text) => out.push_str(text),
            None => push_host_import(out, used[i].as_str(), registry),
        }
        i += 1;
    }
}

fn push_glues(out: &mut String, used: &Vec<String>, registry: &Vec<PlatformFn>)
    ensures
        final(out)@ == glues_text(
            old(out)@,
            texts(used@),
            platform_entries(registry@),
            used@.len(),
        ),
{
    let ghost all = texts(used@);
    let mut i: usize = 0;
    while i < used.len()
        invariant
            i <= used.len(),
            all == texts(used@),
            out@ == glues_text(old(out)@, all, platform_entries(registry@), i as nat),
        decreases used.len() - i,
    {
        assert(all[i as int] == used@[i as int]@);
        match platform_glue(used[i].as_str()) {
            Some(text) => out.push_str(text),
            None => push_host_glue(out, used[i].as_str(), registry),
        }
        i += 1;
    }
}

/// Whether a platform function's host allocates its results in guest memory.
pub open spec fn needs_host_alloc(name: Seq<char>) -> bool {
    "http."@.is_prefix_of(name) || "socket."@.is_prefix_of(name)
}

/// Whether one of some platform functions does.
pub open spec fn any_host_alloc(used: Seq<Seq<char>>) -> bool {
    exists|i: int| 0 <= i < used.len() && needs_host_alloc(#[trigger] used[i])
}

fn host_allocates(used: &Vec<String>) -> (r: bool)
    ensures
        r == any_host_alloc(texts(used@)),
{
    let ghost all = texts(used@);
    let mut i: usize = 0;
    while i < used.len()
        invariant
            i <= used.len(),
            all == texts(used@),
            forall|k: int| 0 <= k < i ==> !needs_host_alloc(#[trigger] all[k]),
        decreases used.len() - i,
    {
        assert(all[i as int] == used@[i as int]@);
        if begins_with(used[i].as_str(), "http.") || begins_with(used[i].as_str(), "socket.") {
            assert(needs_host_alloc(all[i as int]));
            return true;
        }
        i += 1;
    }
    false
}

/// The first function called `main`.
pub open spec fn main_of(p: Seq<FnNode>) -> Option<FnNode>
    decreases p.len(),
{
    if p.len() == 0 {
        None
    } else {
        match main_of(p.drop_last()) {
            Some(f) => Some(f),
            None => if p.last().name == "main"@ {
                Some(p.last())
            } else {
                None
            },
        }
    }
}

proof fn lemma_main_found(p: Seq<FnNode>, k: int)
    requires
        0 <= k <= p.len(),
        main_of(p.take(k)) is Some,
    ensures
        main_of(p) == main_of(p.take(k)),
    decreases p.len() - k,
{
    if k == p.len() {
        assert(p.take(k) =~= p);
    } else {
        assert(p.take(k + 1).drop_last() =~= p.take(k));
        lemma_main_found(p, k + 1);
    }
}

fn find_main(program: &IrProgram) -> (r: Option<&IrFunction>)
    ensures
        match r {
            Some(f) => main_of(program@) == Some(f@),
            None => main_of(program@) is None,
        },
{
    let ghost p = program@;
    let mut i: usize = 0;
    assert(p.take(0).len() == 0);
    while i < program.functions.len()
        invariant
            i <= program.functions.len(),
            p == program@,
            main_of(p.take(i as int)) is None,
        decreases program.functions.len() - i,
    {
        proof {
            assert(p.take(i + 1).drop_last() =~= p.take(i as int));
            assert(p.take(i + 1).last() == program.functions@[i as int]@);
        }
        if same(program.functions[i].name.as_str(), "main") {
            proof {
                lemma_main_found(p, i + 1);
            }
            return Some(&program.functions[i]);
        }
        i += 1;
    }
    assert(p.take(p.len() as int) =~= p);
    None
}

/// The platform functions that a program uses.
pub open spec fn used_platform(p: Seq<FnNode>) -> Seq<Seq<char>> {
    first_occurrences(platform_names(preorder_program(p)))
}

/// The intrinsics that a program uses.
pub open spec fn used_intrinsic(p: Seq<FnNode>) -> Seq<Seq<char>> {
    first_occurrences(intrinsic_names(preorder_program(p)))
}

/// Whether the backend provides a platform function.
pub open spec fn provides_platform(name: Seq<char>, registry: Seq<Platform>) -> bool {
    glue_text(name) is Some || host_entry(name, registry) is Some
}

/// The first platform function from `i` on that the backend does not provide.
pub open spec fn missing_platform(used: Seq<Seq<char>>, registry: Seq<Platform>, i: int) -> Option<Seq<char>>
    decreases used.len() - i,
{
    if i < 0 || i >= used.len() {
        None
    } else if provides_platform(used[i], registry) {
        missing_platform(used, registry, i + 1)
    } else {
        Some(used[i])
    }
}

/// The first intrinsic from `i` on that the backend does not provide.
pub open spec fn missing_intrinsic(used: Seq<Seq<char>>, i: int) -> Option<Seq<char>>
    decreases used.len() - i,
{
    if i < 0 || i >= used.len() {
        None
    } else if inlined(used[i]) is Unknown {
        Some(used[i])
    } else {
        missing_intrinsic(used, i + 1)
    }
}

fn unprovided_platform<'a>(used: &'a Vec<String>, registry: &Vec<PlatformFn>) -> (r: Option<
    &'a String,
>)
    ensures
        match r {
            Some(name) => missing_platform(texts(used@), platform_entries(registry@), 0) == Some(
                name@,
            ),
            None => missing_platform(texts(used@), platform_entries(registry@), 0) is None,
        },
{
    let ghost all = texts(used@);
    let ghost entries = platform_entries(registry@);
    let mut i: usize = 0;
    while i < used.len()
        invariant
            i <= used.len(),
            all == texts(used@),
            entries == platform_entries(registry@),
            missing_platform(all, entries, 0) == missing_platform(all, entries, i as int),
        decreases used.len() - i,
    {
        assert(all[i as int] == used@[i as int]@);
        if platform_glue(used[i].as_str()).is_none() && !host_platform_provided(
            used[i].as_str(),
            registry,
        ) {
            return Some(&used[i]);
        }
        i += 1;
    }
    None
}

fn unprovided_intrinsic<'a>(used: &'a Vec<String>) -> (r: Option<&'a String>)
    ensures
        match r {
            Some(name) => missing_intrinsic(texts(used@), 0) == Some(name@),
            None => missing_intrinsic(texts(used@), 0) is None,
        },
{
    let ghost all = texts(used@);
    let mut i: usize = 0;
    while i < used.len()
        invariant
            i <= used.len(),
            all == texts(used@),
            missing_intrinsic(all, 0) == missing_intrinsic(all, i as int),
        decreases used.len() - i,
    {
        assert(all[i as int] == used@[i as int]@);
        if !wasm_provides_intrinsic(used[i].as_str()) {
            return Some(&used[i]);
        }
        i += 1;
    }
    None
}

/// The tables of a program.
pub open spec fn module_cx(p: Seq<FnNode>) -> Cx {
    Cx {
        functions: function_names(p),
        lambdas: lambda_nodes(preorder_program(p)).len(),
        sigs: module_sigs(p),
        strings: literals(preorder_program(p)),
        drops: drops_of(preorder_program(p)),
    }
}

/// The functions and lambdas of a program.
pub open spec fn module_functions(p: Seq<FnNode>) -> Emitted {
    let lambdas = lambda_nodes(preorder_program(p));
    lambdas_text(
        module_cx(p),
        functions_text(
            module_cx(p),
            Emitted { text: Seq::empty(), error: None },
            p,
            p.len(),
        ),
        lambdas,
        lambdas.len(),
    )
}

/// Why a program has no module, if it has none.
pub open spec fn wasm_rejection(p: Seq<FnNode>, registry: Seq<Platform>) -> Option<Seq<char>> {
    if main_of(p) is None {
        Some("wasm backend requires a `main` function"@)
    } else if let Some(name) = missing_platform(used_platform(p), registry, 0) {
        Some("backend `wasm-wasi` does not provide platform function `"@ + name + "`"@)
    } else if let Some(name) = missing_intrinsic(used_intrinsic(p), 0) {
        Some("backend `wasm-wasi` does not provide intrinsic `"@ + name + "`"@)
    } else if heap_start(literals(preorder_program(p))) > u32::MAX {
        Some("string literals do not fit in memory"@)
    } else {
        module_functions(p).error
    }
}

/// The module of a program, up to its functions.
pub open spec fn module_head(p: Seq<FnNode>, registry: Seq<Platform>) -> Seq<char> {
    let cx = module_cx(p);
    let used = used_platform(p);
    let base = heap_start(cx.strings);
    // The placeholder shape and strings are the first two drop functions.
    let leak = cx.functions.len() + cx.lambdas;
    let opened = ";; Generated by the Emela wasm backend.\n(module\n  (import \"wasi_snapshot_preview1\" \"proc_exit\" (func $proc_exit (param i32)))\n"@;
    let wasi = if used.len() > 0 {
        opened
            + "  (import \"wasi_snapshot_preview1\" \"fd_write\" (func $wasi_fd_write (param i32 i32 i32 i32) (result i32)))\n"@
    } else {
        opened
    };
    let imported = imports_text(wasi, used, registry, used.len());
    let memory = imported + "  (memory (export \"memory\") "@ + decimal(MEMORY_PAGES as nat)
        + " "@ + decimal(MEMORY_MAX_PAGES as nat)
        + ")\n  (global $heap (export \"heap_top\") (mut i32) (i32.const "@ + decimal(base)
        + "))\n  (global $free_list (mut i32) (i32.const 0))\n  (global $live (export \"live_bytes\") (mut i32) (i32.const 0))\n"@;
    let data = segments(memory, cx.strings, cx.strings.len() as int);
    let types = types_text(data, cx.sigs, cx.sigs.len())
        + "  (type $drop_t (func (param i32)))\n"@;
    let runtime = memory_runtime(table_text(types, cx), base, leak) + STRING_ORDER@;
    let helpers = bytes_runtime(string_runtime(runtime, leak + 1), leak + 1);
    glues_text(helpers, used, registry, used.len())
}

/// The module of a program, with its capability manifest embedded as a custom
/// section so that hosts can audit it before instantiation.
pub open spec fn module_text(p: Seq<FnNode>, registry: Seq<Platform>, manifest: Seq<char>) -> Seq<char> {
    let cx = module_cx(p);
    let bodies = module_head(p, registry) + module_functions(p).text;
    let drops = drop_functions(bodies, cx.drops, cx.drops.keys.len());
    let ret = match main_of(p) {
        Some(f) => f.ret,
        None => Ty::Unit,
    };
    let exports = start_text(drops, ret)
        + "  (export \"main\" (func $f_main))\n  (export \"_start\" (func $_start))\n"@;
    let allocating = if any_host_alloc(used_platform(p)) {
        exports + "  (export \"alloc\" (func $alloc_host))\n"@
    } else {
        exports
    };
    hex_bytes(
        allocating + "  (@custom \"emela:capabilities\" (after last) \""@,
        encode_utf8(manifest),
    ) + "\")\n)\n"@
}

/// Whether a text is the module of a program.
pub open spec fn is_module(p: Seq<FnNode>, registry: Seq<Platform>, text: Seq<char>) -> bool {
    exists|m: CapabilityManifest|
        #[trigger] describes(m, p, registry) && text == module_text(
            p,
            registry,
            manifest_json(m),
        )
}

fn refusal(head: &str, name: &str) -> (r: BackendError)
    ensures
        r.message@ == head@ + name@ + "`"@,
        r.diagnostics@.len() == 0,
{
    let mut message = owned(head);
    message.push_str(name);
    message.push_str("`");
    BackendError::new(message)
}

fn push_head(
    out: &mut String,
    cx: &Tables,
    used: &Vec<String>,
    registry: &Vec<PlatformFn>,
    base: u64,
    Ghost(p): Ghost<Seq<FnNode>>,
)
    requires
        old(out)@.len() == 0,
        cx.wf(),
        cx@ == module_cx(p),
        texts(used@) == used_platform(p),
        base == heap_start(cx@.strings),
    ensures
        final(out)@ == module_head(p, platform_entries(registry@)),
{
    proof {
        assert(texts(used@).len() == used@.len());
        assert(cx@.sigs.len() == cx.sigs@.len());
        assert(cx@.strings.len() == cx.strings@.len());
        assert(cx@.functions.len() == cx.functions@.len());
        let t = ";; Generated by the Emela wasm backend.\n(module\n  (import \"wasi_snapshot_preview1\" \"proc_exit\" (func $proc_exit (param i32)))\n"@;
        assert(out@ + t =~= t);
    }
    let leak: u128 = cx.functions.len() as u128 + cx.lambdas as u128;
    out.push_str(
        ";; Generated by the Emela wasm backend.\n(module\n  (import \"wasi_snapshot_preview1\" \"proc_exit\" (func $proc_exit (param i32)))\n",
    );
    if used.len() > 0 {
        out.push_str(
            "  (import \"wasi_snapshot_preview1\" \"fd_write\" (func $wasi_fd_write (param i32 i32 i32 i32) (result i32)))\n",
        );
    }
    push_imports(out, used, registry);
    out.push_str("  (memory (export \"memory\") ");
    push_wide(out, MEMORY_PAGES as u128);
    out.push_str(" ");
    push_wide(out, MEMORY_MAX_PAGES as u128);
    out.push_str(")\n  (global $heap (export \"heap_top\") (mut i32) (i32.const ");
    push_wide(out, base as u128);
    out.push_str(
        "))\n  (global $free_list (mut i32) (i32.const 0))\n  (global $live (export \"live_bytes\") (mut i32) (i32.const 0))\n",
    );
    push_segments(out, &cx.strings, &cx.offsets);
    push_types(out, &cx.sigs);
    out.push_str("  (type $drop_t (func (param i32)))\n");
    push_table(out, cx);
    push_memory_runtime(out, base as u128, leak);
    out.push_str(STRING_ORDER);
    push_string_runtime(out, leak + 1);
    push_bytes_runtime(out, leak + 1);
    push_glues(out, used, registry);
}

fn build_sigs(program: &IrProgram, functions: &Vec<String>, lambdas: &Vec<&IrExpr>, all: &Vec<
    &IrExpr,
>) -> (r: Vec<WasmSig>)
    requires
        texts(functions@) == function_names(program@),
        refs(all@) == preorder_program(program@),
        refs(lambdas@) == lambda_nodes(refs(all@)),
        forall|i: int| 0 <= i < lambdas@.len() ==> (#[trigger] lambdas@[i]) is Fn,
    ensures
        sig_views(r@) == module_sigs(program@),
{
    let mut sigs: Vec<WasmSig> = Vec::new();
    push_function_sigs(&mut sigs, program);
    push_lambda_sigs(&mut sigs, lambdas);
    push_call_sigs(&mut sigs, functions, all);
    sigs
}

/// Assembles the text of the module of a program. String literals beyond a 32-bit
/// address space are refused.
pub fn emit_module(program: &IrProgram, registry: &Vec<PlatformFn>) -> (r: Result<
    String,
    BackendError,
>)
    ensures
        match r {
            Ok(text) => {
                &&& wasm_rejection(program@, platform_entries(registry@)) is None
                &&& is_module(program@, platform_entries(registry@), text@)
            },
            Err(e) => {
                &&& wasm_rejection(program@, platform_entries(registry@)) == Some(e.message@)
                &&& e.diagnostics@.len() == 0
            },
        },
{
    let ghost p = program@;
    let main = match find_main(program) {
        Some(main) => main,
        None => {
            return Err(BackendError::new(owned("wasm backend requires a `main` function")));
        },
    };
    let used = used_platform_fns(program);
    if let Some(name) = unprovided_platform(&used, registry) {
        return Err(
            refusal(
                "backend `wasm-wasi` does not provide platform function `",
                name.as_str(),
            ),
        );
    }
    let intrinsics = used_intrinsics(program);
    if let Some(name) = unprovided_intrinsic(&intrinsics) {
        return Err(
            refusal("backend `wasm-wasi` does not provide intrinsic `", name.as_str()),
        );
    }
    let all = walk_program(program);
    let strings = collect_strings(&all);
    let (offsets, base) = match place_strings(&strings) {
        Some((offsets, base)) => (offsets, base),
        None => {
            return Err(BackendError::new(owned("string literals do not fit in memory")));
        },
    };
    let functions = names_of_functions(program);
    let lambdas = collect_lambdas(&all);
    let sigs = build_sigs(program, &functions, &lambdas, &all);
    let cx = Tables {
        functions,
        lambdas: lambdas.len(),
        sigs,
        strings,
        offsets,
        drops: DropTable::build(&all),
    };
    proof {
        assert(refs(lambdas@).len() == lambdas@.len());
        assert(cx@ =~= module_cx(p));
    }
    let mut bodies = Functions { text: String::new(), error: None };
    proof {
        assert(bodies@ =~= (Emitted { text: Seq::empty(), error: None }));
    }
    push_functions(&cx, &mut bodies, program);
    push_lambdas(&cx, &mut bodies, &lambdas);
    assert(bodies@ == module_functions(p));
    if let Some(message) = bodies.error {
        return Err(BackendError::new(message));
    }
    let manifest = compute_manifest(program, registry);
    let text = finish_module(&cx, &used, registry, base, bodies.text.as_str(), &main.ret, &manifest, Ghost(p));
    Ok(text)
}

fn finish_module(
    cx: &Tables,
    used: &Vec<String>,
    registry: &Vec<PlatformFn>,
    base: u64,
    bodies: &str,
    ret: &Type,
    manifest: &CapabilityManifest,
    Ghost(p): Ghost<Seq<FnNode>>,
) -> (r: String)
    requires
        cx.wf(),
        cx@ == module_cx(p),
        texts(used@) == used_platform(p),
        base == heap_start(cx@.strings),
        bodies@ == module_functions(p).text,
        main_of(p) matches Some(f) && f.ret == ret@,
    ensures
        r@ == module_text(p, platform_entries(registry@), manifest_json(*manifest)),
{
    let mut out = String::new();
    push_head(&mut out, cx, used, registry, base, Ghost(p));
    out.push_str(bodies);
    push_drop_functions(&mut out, &cx.drops);
    push_start(&mut out, ret);
    out.push_str("  (export \"main\" (func $f_main))\n  (export \"_start\" (func $_start))\n");
    if host_allocates(used) {
        out.push_str("  (export \"alloc\" (func $alloc_host))\n");
    }
    let json = serialize_manifest(manifest);
    out.push_str("  (@custom \"emela:capabilities\" (after last) \"");
    push_hex(&mut out, json.as_str().as_bytes());
    out.push_str("\")\n)\n");
    out
}

} // verus!
