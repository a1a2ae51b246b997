//! Code for expressions without heap values computes what they mean.

use vstd::prelude::*;

use crate::ir::Node;
use crate::js::faithful::lemma_eval_two;
use crate::meaning::{eval, eval_all, names_differ, Env, Event, Model, Outcome, Runs, Value};
use crate::rc::apart::decimals_are_apart;
use crate::strings::{decimal, decimal_int};
use crate::types::{heap, Ty};
use crate::wasm::code::{emit, emit_all, inlined, intrinsic, Inlined};
use crate::wasm::layout::{wasm_ty, WasmTy};
use crate::wasm::machine::{
    cell, cells, flag, instructions_compute_their_intrinsics, is_instruction, step, Cell,
};
use crate::wasm::pieces::{
    bound, find_slot, float, fresh, if_open, instruction, integer, let_bind, local_id, number,
    put, putn, raw, variable, Cx, Em, SlotT,
};

verus! {

/// An instruction.
pub enum Instr {
    Const(int),
    FloatConst(Seq<char>),
    GetLocal(Seq<char>),
    SetLocal(Seq<char>),
    /// An instruction on the stack alone.
    Plain(Seq<char>),
    /// Takes a word from the stack: the first code where it is not zero, else the second.
    If(WasmTy, Seq<Instr>, Seq<Instr>),
}

/// How an instruction is written.
pub open spec fn written_instr(i: Instr) -> Seq<char>
    decreases i, 0nat,
{
    match i {
        Instr::Const(n) => "    i32.const "@ + decimal_int(n) + "\n"@,
        Instr::FloatConst(text) => "    f64.const "@ + text + "\n"@,
        Instr::GetLocal(id) => "    local.get "@ + id + "\n"@,
        Instr::SetLocal(id) => "    local.set "@ + id + "\n"@,
        Instr::Plain(text) => "    "@ + text + "\n"@,
        Instr::If(ty, a, b) => "    if (result "@ + ty.keyword_text() + ")\n"@ + written_code(a)
            + "    else\n"@ + written_code(b) + "    end\n"@,
    }
}

/// How code is written.
pub open spec fn written_code(s: Seq<Instr>) -> Seq<char>
    decreases s, 0nat,
{
    if s.len() == 0 {
        Seq::empty()
    } else {
        written_code(s.drop_last()) + written_instr(s.last())
    }
}

/// A state of the machine.
#[verifier::ext_equal]
pub struct Mach {
    pub locals: Map<Seq<char>, Cell>,
    pub stack: Seq<Cell>,
}

/// What an instruction does. `None` is a trap.
pub open spec fn run_instr(m: Model, s: Mach, i: Instr) -> Option<Mach>
    decreases i, 0nat,
{
    match i {
        Instr::Const(n) => Some(Mach { stack: s.stack.push(Cell::I32(n)), ..s }),
        Instr::FloatConst(text) => Some(
            Mach { stack: s.stack.push(Cell::F64((m.float)(text))), ..s },
        ),
        Instr::GetLocal(id) => if s.locals.dom().contains(id) {
            Some(Mach { stack: s.stack.push(s.locals[id]), ..s })
        } else {
            None
        },
        Instr::SetLocal(id) => if s.stack.len() > 0 {
            Some(
                Mach { locals: s.locals.insert(id, s.stack.last()), stack: s.stack.drop_last() },
            )
        } else {
            None
        },
        Instr::Plain(text) => match step(m, text, s.stack) {
            Some(stack) => Some(Mach { stack, ..s }),
            None => None,
        },
        Instr::If(_, a, b) => if s.stack.len() > 0 {
            let below = Mach { stack: s.stack.drop_last(), ..s };
            match s.stack.last() {
                Cell::I32(c) => if c != 0 {
                    run_code(m, below, a)
                } else {
                    run_code(m, below, b)
                },
                _ => None,
            }
        } else {
            None
        },
    }
}

/// What code does.
pub open spec fn run_code(m: Model, s: Mach, code: Seq<Instr>) -> Option<Mach>
    decreases code, 0nat,
{
    if code.len() == 0 {
        Some(s)
    } else {
        match run_code(m, s, code.drop_last()) {
            Some(next) => run_instr(m, next, code.last()),
            None => None,
        }
    }
}

/// Whether an expression reads the variables of `vis` alone, binds no heap value and
/// none of their names, and has constants, bindings, branches and instructions alone.
pub open spec fn is_scalar(e: Node, vis: Set<Seq<char>>) -> bool
    decreases e,
{
    match e {
        Node::Int(_) => true,
        Node::Bool(_) => true,
        Node::Unit => true,
        Node::Char(_) => true,
        Node::Float(_) => true,
        Node::Var { name, .. } => vis.contains(name),
        Node::Let { name, value_ty, value, next } => {
            &&& !heap(value_ty)
            &&& !vis.contains(name)
            &&& is_scalar(*value, vis)
            &&& is_scalar(*next, vis.insert(name))
        },
        Node::If { cond, then, els, .. } => is_scalar(*cond, vis) && is_scalar(*then, vis)
            && is_scalar(*els, vis),
        Node::CharFromCode(value) => is_scalar(*value, vis),
        Node::Intrinsic { name, args, .. } => if name == "f64_sqrt"@ {
            args.len() == 1 && is_scalar(args[0], vis)
        } else {
            is_instruction(name) && args.len() == 2 && is_scalar(args[0], vis) && is_scalar(
                args[1],
                vis,
            )
        },
        _ => false,
    }
}

/// How many locals an expression takes.
pub open spec fn lets(e: Node) -> nat
    decreases e,
{
    match e {
        Node::Let { value, next, .. } => lets(*value) + 1 + lets(*next),
        Node::If { cond, then, els, .. } => lets(*cond) + lets(*then) + lets(*els),
        Node::CharFromCode(value) => lets(*value),
        Node::Intrinsic { args, .. } => if args.len() == 1 {
            lets(args[0])
        } else if args.len() == 2 {
            lets(args[0]) + lets(args[1])
        } else {
            0
        },
        _ => 0,
    }
}

/// [`emit`].
#[verifier::opaque]
pub open spec fn em(cx: Cx, st: Em, e: Node) -> Em {
    emit(cx, st, e)
}

/// The instruction of an intrinsic.
spec fn text_of(name: Seq<char>) -> Seq<char> {
    match inlined(name) {
        Inlined::Plain(text) => text,
        _ => Seq::empty(),
    }
}

/// The code that an expression is emitted as.
spec fn code_of(cx: Cx, st: Em, e: Node) -> Seq<Instr>
    decreases e,
{
    match e {
        Node::Int(n) => seq![Instr::Const(n as int)],
        Node::Bool(b) => seq![
            Instr::Const(
                if b {
                    1
                } else {
                    0
                },
            ),
        ],
        Node::Unit => seq![Instr::Const(0)],
        Node::Char(c) => seq![Instr::Const(c as int)],
        Node::Float(text) => seq![Instr::FloatConst(text)],
        Node::Var { name, .. } => match find_slot(st.scope, name) {
            Some(SlotT::Local(id)) => seq![Instr::GetLocal(id)],
            _ => Seq::empty(),
        },
        Node::Let { name, value_ty, value, next } => {
            let v = em(cx, st, *value);
            (code_of(cx, st, *value) + seq![Instr::SetLocal(local_id(v.counter))]) + code_of(
                cx,
                let_bind(v, name, value_ty),
                *next,
            )
        },
        Node::If { cond, then, els, ty } => {
            let c = if_open(em(cx, st, *cond), ty);
            let t = instruction(em(cx, c, *then), "else"@);
            code_of(cx, st, *cond) + seq![
                Instr::If(wasm_ty(ty), code_of(cx, c, *then), code_of(cx, t, *els)),
            ]
        },
        Node::CharFromCode(value) => code_of(cx, st, *value),
        Node::Intrinsic { name, args, .. } => if args.len() == 1 {
            code_of(cx, st, args[0]) + seq![Instr::Plain(text_of(name))]
        } else if args.len() == 2 {
            (code_of(cx, st, args[0]) + code_of(cx, em(cx, st, args[0]), args[1])) + seq![
                Instr::Plain(text_of(name)),
            ]
        } else {
            Seq::empty()
        },
        _ => Seq::empty(),
    }
}

/// Whether the variables of `vis` are in locals, and stay there when they are read.
pub open spec fn is_placed(vis: Set<Seq<char>>, st: Em) -> bool {
    forall|x: Seq<char>| #[trigger]
        vis.contains(x) ==> (find_slot(st.scope, x) matches Some(SlotT::Local(id)) && is_low(
            id,
            st.counter,
        )) && !st.transfer.contains(x)
}

/// Whether a local is none of those that are yet to be taken.
pub open spec fn is_low(id: Seq<char>, n: u64) -> bool {
    forall|k: u64| k >= n ==> id != #[trigger] local_id(k)
}

/// Whether the locals hold what the variables do.
pub open spec fn holds(vis: Set<Seq<char>>, st: Em, env: Env, locals: Map<Seq<char>, Cell>) -> bool {
    forall|x: Seq<char>| #[trigger]
        vis.contains(x) ==> env.dom().contains(x) && (find_slot(st.scope, x) matches Some(
            SlotT::Local(id),
        ) && locals.dom().contains(id) && locals[id] == cell(env[x]))
}

/// Where the names in scope are found.
spec fn same_slots(vis: Set<Seq<char>>, a: Em, b: Em) -> bool {
    forall|x: Seq<char>| #[trigger]
        vis.contains(x) ==> find_slot(a.scope, x) == find_slot(b.scope, x)
}

proof fn lemma_text_join(a: Seq<Instr>, b: Seq<Instr>)
    ensures
        written_code(a + b) == written_code(a) + written_code(b),
    decreases b.len(),
{
    if b.len() == 0 {
        assert(a + b =~= a);
        assert(written_code(a) + written_code(b) =~= written_code(a));
    } else {
        lemma_text_join(a, b.drop_last());
        assert((a + b).drop_last() =~= a + b.drop_last());
        assert((a + b).last() == b.last());
        assert(written_code(a + b) =~= written_code(a) + written_code(b));
    }
}

proof fn lemma_text_one(i: Instr)
    ensures
        written_code(seq![i]) == written_instr(i),
{
    let none = Seq::<Instr>::empty();
    assert(seq![i].drop_last() =~= none);
    assert(written_code(none) =~= Seq::<char>::empty());
    assert(seq![i].last() == i);
    assert(written_code(seq![i]) =~= written_instr(i));
}

proof fn lemma_run_join(m: Model, s: Mach, a: Seq<Instr>, b: Seq<Instr>)
    ensures
        run_code(m, s, a + b) == (match run_code(m, s, a) {
            Some(next) => run_code(m, next, b),
            None => None,
        }),
    decreases b.len(),
{
    if b.len() == 0 {
        assert(a + b =~= a);
    } else {
        lemma_run_join(m, s, a, b.drop_last());
        assert((a + b).drop_last() =~= a + b.drop_last());
        assert((a + b).last() == b.last());
    }
}

proof fn lemma_run_one(m: Model, s: Mach, i: Instr)
    ensures
        run_code(m, s, seq![i]) == run_instr(m, s, i),
{
    assert(seq![i].drop_last() =~= Seq::<Instr>::empty());
    assert(run_code(m, s, Seq::<Instr>::empty()) == Some(s));
    assert(seq![i].last() == i);
}

/// Every intrinsic that is an instruction is emitted as that.
proof fn lemma_plain(name: Seq<char>)
    requires
        is_instruction(name),
    ensures
        inlined(name) is Plain,
{
    names_differ();
}

proof fn lemma_em_let(cx: Cx, st: Em, name: Seq<char>, value_ty: Ty, value: Box<Node>, next: Box<Node>)
    ensures
        em(cx, st, Node::Let { name, value_ty, value, next }) == em(
            cx,
            let_bind(em(cx, st, *value), name, value_ty),
            *next,
        ),
{
    reveal(em);
}

proof fn lemma_em_if(cx: Cx, st: Em, cond: Box<Node>, then: Box<Node>, els: Box<Node>, ty: Ty)
    ensures
        em(cx, st, Node::If { cond, then, els, ty }) == instruction(
            em(
                cx,
                instruction(em(cx, if_open(em(cx, st, *cond), ty), *then), "else"@),
                *els,
            ),
            "end"@,
        ),
{
    reveal(em);
}

proof fn lemma_em_none(cx: Cx, st: Em, args: Seq<Node>)
    requires
        args.len() == 0,
    ensures
        emit_all(cx, st, args) == st,
{
}

proof fn lemma_em_push(cx: Cx, st: Em, args: Seq<Node>)
    requires
        args.len() > 0,
    ensures
        emit_all(cx, st, args) == em(cx, emit_all(cx, st, args.drop_last()), args.last()),
{
    reveal(em);
}

proof fn lemma_em_intrinsic(cx: Cx, st: Em, name: Seq<char>, args: Seq<Node>, ret: Ty)
    ensures
        em(cx, st, Node::Intrinsic { name, args, ret }) == intrinsic(cx, st, name, args, ret),
{
    reveal(em);
}

proof fn lemma_intrinsic(cx: Cx, st: Em, name: Seq<char>, args: Seq<Node>, ret: Ty)
    requires
        is_instruction(name),
    ensures
        em(cx, st, Node::Intrinsic { name, args, ret }) == instruction(
            emit_all(cx, st, args),
            text_of(name),
        ),
{
    lemma_em_intrinsic(cx, st, name, args, ret);
    lemma_plain(name);
}

proof fn lemma_em_one(cx: Cx, st: Em, name: Seq<char>, args: Seq<Node>, ret: Ty)
    requires
        is_instruction(name),
        args.len() == 1,
    ensures
        em(cx, st, Node::Intrinsic { name, args, ret }) == instruction(
            em(cx, st, args[0]),
            text_of(name),
        ),
{
    lemma_intrinsic(cx, st, name, args, ret);
    lemma_em_push(cx, st, args);
    lemma_em_none(cx, st, args.drop_last());
}

proof fn lemma_em_two(cx: Cx, st: Em, name: Seq<char>, args: Seq<Node>, ret: Ty)
    requires
        is_instruction(name),
        args.len() == 2,
    ensures
        em(cx, st, Node::Intrinsic { name, args, ret }) == instruction(
            em(cx, em(cx, st, args[0]), args[1]),
            text_of(name),
        ),
{
    lemma_intrinsic(cx, st, name, args, ret);
    lemma_em_push(cx, st, args);
    lemma_em_push(cx, st, args.drop_last());
    lemma_em_none(cx, st, args.drop_last().drop_last());
    assert(args.drop_last().last() == args[0]);
}

/// A binding takes the next local.
proof fn lemma_let_bind(st: Em, name: Seq<char>, ty: Ty)
    requires
        !heap(ty),
        st.counter < u64::MAX,
    ensures
        ({
            let r = let_bind(st, name, ty);
            &&& r.counter == st.counter + 1
            &&& r.transfer == st.transfer
            &&& r.scope == st.scope.push((name, SlotT::Local(local_id(st.counter))))
            &&& r.code == st.code + written_instr(Instr::SetLocal(local_id(st.counter)))
        }),
{
    reveal(fresh);
    reveal(put);
    reveal(raw);
    reveal(bound);
    let r = let_bind(st, name, ty);
    assert(r.code =~= st.code + written_instr(Instr::SetLocal(local_id(st.counter))));
}

proof fn lemma_instruction(st: Em, text: Seq<char>)
    ensures
        ({
            let r = instruction(st, text);
            &&& r.counter == st.counter
            &&& r.transfer == st.transfer
            &&& r.scope == st.scope
            &&& r.code == st.code + written_instr(Instr::Plain(text))
        }),
{
    reveal(put);
    reveal(raw);
    assert(instruction(st, text).code =~= st.code + written_instr(Instr::Plain(text)));
}

proof fn lemma_if_open(st: Em, ty: Ty)
    ensures
        ({
            let r = if_open(st, ty);
            &&& r.counter == st.counter
            &&& r.transfer == st.transfer
            &&& r.scope == st.scope
            &&& r.code == st.code + ("    if (result "@ + wasm_ty(ty).keyword_text() + ")\n"@)
        }),
{
    reveal(put);
    reveal(raw);
    assert(if_open(st, ty).code =~= st.code + ("    if (result "@ + wasm_ty(ty).keyword_text()
        + ")\n"@));
}

proof fn lemma_still_placed(vis: Set<Seq<char>>, a: Em, b: Em)
    requires
        is_placed(vis, a),
        same_slots(vis, a, b),
        a.counter <= b.counter,
        b.transfer == a.transfer,
    ensures
        is_placed(vis, b),
{
    assert forall|x: Seq<char>| #[trigger] vis.contains(x) implies (find_slot(
        b.scope,
        x,
    ) matches Some(SlotT::Local(id)) && is_low(id, b.counter)) && !b.transfer.contains(x) by {
        assert(find_slot(a.scope, x) == find_slot(b.scope, x));
    }
}

/// A binding is found, and hides nothing else.
proof fn lemma_bound_slots(vis: Set<Seq<char>>, st: Em, name: Seq<char>, ty: Ty)
    requires
        is_placed(vis, st),
        !vis.contains(name),
        !heap(ty),
        st.counter < u64::MAX,
        !st.transfer.contains(name),
    ensures
        is_placed(vis.insert(name), let_bind(st, name, ty)),
        same_slots(vis, st, let_bind(st, name, ty)),
        find_slot(let_bind(st, name, ty).scope, name) == Some(
            SlotT::Local(local_id(st.counter)),
        ),
{
    lemma_let_bind(st, name, ty);
    let r = let_bind(st, name, ty);
    assert(r.scope.drop_last() =~= st.scope);
    assert(r.scope.last() == (name, SlotT::Local(local_id(st.counter))));
    assert(is_low(local_id(st.counter), r.counter)) by {
        assert forall|k: u64| k >= r.counter implies local_id(st.counter) != #[trigger] local_id(
            k,
        ) by {
            lemma_locals_differ(st.counter, k);
        }
    }
    assert forall|x: Seq<char>| #[trigger] vis.insert(name).contains(x) implies (find_slot(
        r.scope,
        x,
    ) matches Some(SlotT::Local(id)) && is_low(id, r.counter)) && !r.transfer.contains(x) by {
        if x != name {
            assert(vis.contains(x));
        }
    }
}

proof fn lemma_locals_differ(a: u64, b: u64)
    requires
        a != b,
    ensures
        local_id(a) != local_id(b),
{
    if local_id(a) == local_id(b) {
        assert(local_id(a).skip("$v"@.len() as int) =~= decimal(a as nat));
        assert(local_id(b).skip("$v"@.len() as int) =~= decimal(b as nat));
        decimals_are_apart(a as nat, b as nat);
    }
}

/// Whether no binding of an expression has a name that is handed on.
pub open spec fn binds_none(e: Node, names: Seq<Seq<char>>) -> bool
    decreases e,
{
    match e {
        Node::Let { name, value, next, .. } => !names.contains(name) && binds_none(*value, names)
            && binds_none(*next, names),
        Node::If { cond, then, els, .. } => binds_none(*cond, names) && binds_none(*then, names)
            && binds_none(*els, names),
        Node::CharFromCode(value) => binds_none(*value, names),
        Node::Intrinsic { args, .. } => if args.len() == 1 {
            binds_none(args[0], names)
        } else if args.len() == 2 {
            binds_none(args[0], names) && binds_none(args[1], names)
        } else {
            true
        },
        _ => true,
    }
}

/// What is emitted is the code, written, and where the names in scope are found stays.
proof fn lemma_emit(cx: Cx, st: Em, e: Node, vis: Set<Seq<char>>)
    requires
        is_scalar(e, vis),
        is_placed(vis, st),
        binds_none(e, st.transfer),
        st.counter + lets(e) <= u64::MAX,
    ensures
        em(cx, st, e).counter == st.counter + lets(e),
        em(cx, st, e).transfer == st.transfer,
        same_slots(vis, st, em(cx, st, e)),
        em(cx, st, e).code == st.code + written_code(code_of(cx, st, e)),
    decreases e, 1nat,
{
    match e {
        Node::Let { .. } => lemma_emit_let(cx, st, e, vis),
        Node::If { .. } => lemma_emit_if(cx, st, e, vis),
        Node::CharFromCode(value) => {
            assert(em(cx, st, e) == em(cx, st, *value)) by {
                reveal(em);
            }
            lemma_emit(cx, st, *value, vis);
        },
        Node::Intrinsic { .. } => lemma_emit_intrinsic(cx, st, e, vis),
        Node::Int(_) | Node::Bool(_) | Node::Unit | Node::Char(_) | Node::Float(_)
        | Node::Var { .. } => lemma_emit_leaf(cx, st, e, vis),
        _ => {},
    }
}

proof fn lemma_number(st: Em, n: nat)
    ensures
        ({
            let r = number(st, n);
            &&& r.counter == st.counter
            &&& r.transfer == st.transfer
            &&& r.scope == st.scope
            &&& r.code == st.code + written_code(seq![Instr::Const(n as int)])
        }),
{
    reveal(putn);
    reveal(raw);
    lemma_text_one(Instr::Const(n as int));
    assert(number(st, n).code =~= st.code + written_instr(Instr::Const(n as int)));
}

proof fn lemma_integer(st: Em, n: i32)
    ensures
        ({
            let r = integer(st, n);
            &&& r.counter == st.counter
            &&& r.transfer == st.transfer
            &&& r.scope == st.scope
            &&& r.code == st.code + written_code(seq![Instr::Const(n as int)])
        }),
{
    reveal(put);
    reveal(raw);
    lemma_text_one(Instr::Const(n as int));
    assert(integer(st, n).code =~= st.code + written_instr(Instr::Const(n as int)));
}

proof fn lemma_float(st: Em, text: Seq<char>)
    ensures
        ({
            let r = float(st, text);
            &&& r.counter == st.counter
            &&& r.transfer == st.transfer
            &&& r.scope == st.scope
            &&& r.code == st.code + written_code(seq![Instr::FloatConst(text)])
        }),
{
    reveal(put);
    reveal(raw);
    lemma_text_one(Instr::FloatConst(text));
    assert(float(st, text).code =~= st.code + written_instr(Instr::FloatConst(text)));
}

proof fn lemma_variable(st: Em, name: Seq<char>, id: Seq<char>)
    requires
        find_slot(st.scope, name) == Some(SlotT::Local(id)),
        !st.transfer.contains(name),
    ensures
        ({
            let r = variable(st, name);
            &&& r.counter == st.counter
            &&& r.transfer == st.transfer
            &&& r.scope == st.scope
            &&& r.code == st.code + written_code(seq![Instr::GetLocal(id)])
        }),
{
    reveal(put);
    reveal(raw);
    lemma_text_one(Instr::GetLocal(id));
    assert(variable(st, name).code =~= st.code + written_instr(Instr::GetLocal(id)));
}

/// What constants and variables are emitted as.
proof fn lemma_em_leaf(cx: Cx, st: Em, e: Node)
    ensures
        match e {
            Node::Int(n) => em(cx, st, e) == integer(st, n),
            Node::Bool(b) => em(cx, st, e) == number(
                st,
                if b {
                    1
                } else {
                    0
                },
            ),
            Node::Unit => em(cx, st, e) == number(st, 0),
            Node::Char(c) => em(cx, st, e) == number(st, c as nat),
            Node::Float(text) => em(cx, st, e) == float(st, text),
            Node::Var { name, .. } => em(cx, st, e) == variable(st, name),
            _ => true,
        },
{
    reveal(em);
}

proof fn lemma_emit_leaf(cx: Cx, st: Em, e: Node, vis: Set<Seq<char>>)
    requires
        e is Int || e is Bool || e is Unit || e is Char || e is Float || e is Var,
        is_scalar(e, vis),
        is_placed(vis, st),
        binds_none(e, st.transfer),
        st.counter + lets(e) <= u64::MAX,
    ensures
        em(cx, st, e).counter == st.counter + lets(e),
        em(cx, st, e).transfer == st.transfer,
        same_slots(vis, st, em(cx, st, e)),
        em(cx, st, e).code == st.code + written_code(code_of(cx, st, e)),
    decreases e, 0nat,
{
    lemma_em_leaf(cx, st, e);
    match e {
        Node::Int(n) => lemma_integer(st, n),
        Node::Bool(b) => lemma_number(
            st,
            if b {
                1
            } else {
                0
            },
        ),
        Node::Unit => lemma_number(st, 0),
        Node::Char(c) => lemma_number(st, c as nat),
        Node::Float(text) => lemma_float(st, text),
        Node::Var { name, .. } => {
            assert(vis.contains(name));
            if let Some(SlotT::Local(id)) = find_slot(st.scope, name) {
                lemma_variable(st, name, id);
            }
        },
        _ => {},
    }
}

proof fn lemma_emit_let(cx: Cx, st: Em, e: Node, vis: Set<Seq<char>>)
    requires
        e is Let,
        is_scalar(e, vis),
        is_placed(vis, st),
        binds_none(e, st.transfer),
        st.counter + lets(e) <= u64::MAX,
    ensures
        em(cx, st, e).counter == st.counter + lets(e),
        em(cx, st, e).transfer == st.transfer,
        same_slots(vis, st, em(cx, st, e)),
        em(cx, st, e).code == st.code + written_code(code_of(cx, st, e)),
    decreases e, 0nat,
{
    let r = em(cx, st, e);
    match e {
        Node::Let { name, value_ty, value, next } => {
            let v = em(cx, st, *value);
            lemma_em_let(cx, st, name, value_ty, value, next);
            lemma_emit(cx, st, *value, vis);
            lemma_still_placed(vis, st, v);
            lemma_let_bind(v, name, value_ty);
            lemma_bound_slots(vis, v, name, value_ty);
            let b = let_bind(v, name, value_ty);
            lemma_emit(cx, b, *next, vis.insert(name));
            assert(r == em(cx, b, *next));
            assert forall|x: Seq<char>| #[trigger] vis.contains(x) implies find_slot(st.scope, x)
                == find_slot(r.scope, x) by {
                assert(vis.insert(name).contains(x));
            }
            let i = Instr::SetLocal(local_id(v.counter));
            let first = code_of(cx, st, *value);
            lemma_text_one(i);
            lemma_text_join(first, seq![i]);
            lemma_text_join(first + seq![i], code_of(cx, b, *next));
            assert(r.code =~= st.code + written_code(code_of(cx, st, e)));
        },
        _ => {},
    }
}

proof fn lemma_emit_if(cx: Cx, st: Em, e: Node, vis: Set<Seq<char>>)
    requires
        e is If,
        is_scalar(e, vis),
        is_placed(vis, st),
        binds_none(e, st.transfer),
        st.counter + lets(e) <= u64::MAX,
    ensures
        em(cx, st, e).counter == st.counter + lets(e),
        em(cx, st, e).transfer == st.transfer,
        same_slots(vis, st, em(cx, st, e)),
        em(cx, st, e).code == st.code + written_code(code_of(cx, st, e)),
    decreases e, 0nat,
{
    match e {
        Node::If { cond, then, els, ty } => {
            let c = em(cx, st, *cond);
            lemma_em_if(cx, st, cond, then, els, ty);
            lemma_emit(cx, st, *cond, vis);
            let o = if_open(c, ty);
            lemma_if_open(c, ty);
            lemma_still_placed(vis, st, o);
            let t = em(cx, o, *then);
            lemma_emit(cx, o, *then, vis);
            let f = instruction(t, "else"@);
            lemma_instruction(t, "else"@);
            lemma_still_placed(vis, st, f);
            let g = em(cx, f, *els);
            lemma_emit(cx, f, *els, vis);
            lemma_instruction(g, "end"@);
            let a = code_of(cx, o, *then);
            let b = code_of(cx, f, *els);
            let i = Instr::If(wasm_ty(ty), a, b);
            lemma_text_one(i);
            lemma_text_join(code_of(cx, st, *cond), seq![i]);
            lemma_branch_texts();
            lemma_if_text(st.code, written_code(code_of(cx, st, *cond)), ty, written_code(a), written_code(b));
        },
        _ => {},
    }
}

proof fn lemma_emit_intrinsic(cx: Cx, st: Em, e: Node, vis: Set<Seq<char>>)
    requires
        e is Intrinsic,
        is_scalar(e, vis),
        is_placed(vis, st),
        binds_none(e, st.transfer),
        st.counter + lets(e) <= u64::MAX,
    ensures
        em(cx, st, e).counter == st.counter + lets(e),
        em(cx, st, e).transfer == st.transfer,
        same_slots(vis, st, em(cx, st, e)),
        em(cx, st, e).code == st.code + written_code(code_of(cx, st, e)),
    decreases e, 0nat,
{
    let r = em(cx, st, e);
    match e {
        Node::Intrinsic { name, args, ret } => {
            let i = Instr::Plain(text_of(name));
            lemma_text_one(i);
            lemma_emit(cx, st, args[0], vis);
            let a = em(cx, st, args[0]);
            let first = code_of(cx, st, args[0]);
            if args.len() == 1 {
                lemma_em_one(cx, st, name, args, ret);
                lemma_instruction(a, text_of(name));
                lemma_text_join(first, seq![i]);
                assert(r.code =~= st.code + written_code(code_of(cx, st, e)));
            } else {
                lemma_em_two(cx, st, name, args, ret);
                lemma_still_placed(vis, st, a);
                lemma_emit(cx, a, args[1], vis);
                let b = em(cx, a, args[1]);
                let second = code_of(cx, a, args[1]);
                lemma_instruction(b, text_of(name));
                lemma_text_join(first, second);
                lemma_text_join(first + second, seq![i]);
                assert(r.code =~= st.code + written_code(code_of(cx, st, e)));
            }
        },
        _ => {},
    }
}

proof fn lemma_branch_texts()
    ensures
        written_instr(Instr::Plain("else"@)) == "    else\n"@,
        written_instr(Instr::Plain("end"@)) == "    end\n"@,
{
    reveal_strlit("    ");
    reveal_strlit("else");
    reveal_strlit("end");
    reveal_strlit("\n");
    reveal_strlit("    else\n");
    reveal_strlit("    end\n");
    assert("    "@ + "else"@ + "\n"@ =~= "    else\n"@);
    assert("    "@ + "end"@ + "\n"@ =~= "    end\n"@);
}

proof fn lemma_if_text(out: Seq<char>, c: Seq<char>, ty: Ty, a: Seq<char>, b: Seq<char>)
    ensures
        out + c + ("    if (result "@ + wasm_ty(ty).keyword_text() + ")\n"@) + a + "    else\n"@ + b
            + "    end\n"@ == out + (c + ("    if (result "@ + wasm_ty(ty).keyword_text() + ")\n"@
            + a + "    else\n"@ + b + "    end\n"@)),
{
    let open = "    if (result "@ + wasm_ty(ty).keyword_text() + ")\n"@;
    lemma_six(out, c, open, a, "    else\n"@, b, "    end\n"@);
}

proof fn lemma_six(o: Seq<char>, c: Seq<char>, d: Seq<char>, a: Seq<char>, x: Seq<char>, b: Seq<char>, y: Seq<char>)
    ensures
        o + c + d + a + x + b + y == o + (c + (d + a + x + b + y)),
{
    assert(o + c + d + a + x + b + y =~= o + (c + (d + a + x + b + y)));
}

/// Whether code leaves the locals that were taken before as they were.
pub open spec fn leaves(n: u64, a: Map<Seq<char>, Cell>, b: Map<Seq<char>, Cell>) -> bool {
    forall|id: Seq<char>| #[trigger]
        is_low(id, n) && a.dom().contains(id) ==> b.dom().contains(id) && b[id] == a[id]
}

proof fn lemma_leaves(n: u64, k: u64, a: Map<Seq<char>, Cell>, b: Map<Seq<char>, Cell>, c: Map<Seq<char>, Cell>)
    requires
        n <= k,
        leaves(n, a, b),
        leaves(k, b, c),
    ensures
        leaves(n, a, c),
{
    assert forall|id: Seq<char>| #[trigger]
        is_low(id, n) && a.dom().contains(id) implies c.dom().contains(id) && c[id] == a[id] by {
        assert(b.dom().contains(id) && b[id] == a[id]);
        assert(is_low(id, k));
    }
}

proof fn lemma_still_holds(vis: Set<Seq<char>>, a: Em, b: Em, env: Env, l: Map<Seq<char>, Cell>, k: Map<Seq<char>, Cell>)
    requires
        holds(vis, a, env, l),
        is_placed(vis, a),
        same_slots(vis, a, b),
        leaves(a.counter, l, k),
    ensures
        holds(vis, b, env, k),
{
    assert forall|x: Seq<char>| #[trigger] vis.contains(x) implies env.dom().contains(x) && (
    find_slot(b.scope, x) matches Some(SlotT::Local(id)) && k.dom().contains(id) && k[id] == cell(
        env[x],
    )) by {
        assert(find_slot(a.scope, x) == find_slot(b.scope, x));
        if let Some(SlotT::Local(id)) = find_slot(a.scope, x) {
            assert(is_low(id, a.counter));
            assert(l.dom().contains(id));
        }
    }
}

/// Whether code leaves a value on the stack.
spec fn is_left(r: Option<Mach>, s: Mach, n: u64, v: Value) -> bool {
    r matches Some(x) && x.stack == s.stack.push(cell(v)) && leaves(n, s.locals, x.locals)
}

/// The code of an expression leaves its value.
proof fn lemma_computes(m: Model, me: Seq<char>, cx: Cx, st: Em, e: Node, vis: Set<Seq<char>>, env: Env, s: Mach, t: Seq<Event>)
    requires
        is_scalar(e, vis),
        is_placed(vis, st),
        binds_none(e, st.transfer),
        st.counter + lets(e) <= u64::MAX,
        holds(vis, st, env, s.locals),
        !(eval(m, me, env, e, t).out is Stuck),
    ensures
        eval(m, me, env, e, t).out is Done,
        eval(m, me, env, e, t).trace == t,
        is_left(
            run_code(m, s, code_of(cx, st, e)),
            s,
            st.counter,
            eval(m, me, env, e, t).out->Done_0,
        ),
    decreases e, 1nat,
{
    let code = code_of(cx, st, e);
    match e {
        Node::Int(n) => lemma_run_one(m, s, Instr::Const(n as int)),
        Node::Bool(b) => lemma_run_one(
            m,
            s,
            Instr::Const(
                if b {
                    1
                } else {
                    0
                },
            ),
        ),
        Node::Unit => lemma_run_one(m, s, Instr::Const(0)),
        Node::Char(c) => lemma_run_one(m, s, Instr::Const(c as int)),
        Node::Float(text) => lemma_run_one(m, s, Instr::FloatConst(text)),
        Node::Var { name, .. } => {
            assert(vis.contains(name));
            if let Some(SlotT::Local(id)) = find_slot(st.scope, name) {
                lemma_run_one(m, s, Instr::GetLocal(id));
            }
        },
        Node::Let { name, value_ty, value, next } => {
            let v = em(cx, st, *value);
            lemma_emit(cx, st, *value, vis);
            lemma_computes(m, me, cx, st, *value, vis, env, s, t);
            let x = eval(m, me, env, *value, t).out->Done_0;
            let first = code_of(cx, st, *value);
            let s1 = run_code(m, s, first)->Some_0;
            lemma_still_placed(vis, st, v);
            lemma_still_holds(vis, st, v, env, s.locals, s1.locals);
            lemma_let_bind(v, name, value_ty);
            lemma_bound_slots(vis, v, name, value_ty);
            let b = let_bind(v, name, value_ty);
            let id = local_id(v.counter);
            let i = Instr::SetLocal(id);
            lemma_run_one(m, s1, i);
            lemma_run_join(m, s, first, seq![i]);
            let s2 = Mach { locals: s1.locals.insert(id, cell(x)), stack: s.stack };
            assert(s1.stack.drop_last() =~= s.stack);
            assert(run_instr(m, s1, i) == Some(s2));
            let env2 = env.insert(name, x);
            let inner = vis.insert(name);
            assert(leaves(v.counter, s1.locals, s2.locals)) by {
                assert forall|d: Seq<char>| #[trigger]
                    is_low(d, v.counter) && s1.locals.dom().contains(d) implies s2.locals.dom().contains(d)
                    && s2.locals[d] == s1.locals[d] by {
                    assert(d != local_id(v.counter));
                }
            }
            lemma_still_holds(vis, v, b, env, s1.locals, s2.locals);
            assert(holds(inner, b, env2, s2.locals)) by {
                assert forall|y: Seq<char>| #[trigger] inner.contains(y) implies env2.dom().contains(
                    y,
                ) && (find_slot(b.scope, y) matches Some(SlotT::Local(d)) && s2.locals.dom().contains(
                    d,
                ) && s2.locals[d] == cell(env2[y])) by {
                    if y != name {
                        assert(vis.contains(y));
                    }
                }
            }
            lemma_computes(m, me, cx, b, *next, inner, env2, s2, t);
            let second = code_of(cx, b, *next);
            lemma_run_join(m, s, first + seq![i], second);
            let s3 = run_code(m, s2, second)->Some_0;
            lemma_leaves(st.counter, v.counter, s.locals, s1.locals, s2.locals);
            lemma_leaves(st.counter, b.counter, s.locals, s2.locals, s3.locals);
        },
        Node::If { cond, then, els, ty } => {
            let c = em(cx, st, *cond);
            lemma_emit(cx, st, *cond, vis);
            lemma_computes(m, me, cx, st, *cond, vis, env, s, t);
            let first = code_of(cx, st, *cond);
            let s1 = run_code(m, s, first)->Some_0;
            let o = if_open(c, ty);
            lemma_if_open(c, ty);
            lemma_still_placed(vis, st, o);
            lemma_still_holds(vis, st, o, env, s.locals, s1.locals);
            let th = em(cx, o, *then);
            lemma_emit(cx, o, *then, vis);
            let f = instruction(th, "else"@);
            lemma_instruction(th, "else"@);
            lemma_still_placed(vis, st, f);
            lemma_still_holds(vis, st, f, env, s.locals, s1.locals);
            let a = code_of(cx, o, *then);
            let b = code_of(cx, f, *els);
            let i = Instr::If(wasm_ty(ty), a, b);
            lemma_run_one(m, s1, i);
            lemma_run_join(m, s, first, seq![i]);
            let below = Mach { stack: s1.stack.drop_last(), ..s1 };
            assert(below.stack =~= s.stack);
            if let Outcome::Done(Value::Bool(v)) = eval(m, me, env, *cond, t).out {
                assert(s1.stack.last() == flag(v));
                if v {
                    lemma_computes(m, me, cx, o, *then, vis, env, below, t);
                    let s2 = run_code(m, below, a)->Some_0;
                    lemma_leaves(st.counter, o.counter, s.locals, s1.locals, s2.locals);
                } else {
                    lemma_computes(m, me, cx, f, *els, vis, env, below, t);
                    let s2 = run_code(m, below, b)->Some_0;
                    lemma_leaves(st.counter, f.counter, s.locals, s1.locals, s2.locals);
                }
            }
        },
        Node::CharFromCode(value) => {
            names_differ();
            lemma_computes(m, me, cx, st, *value, vis, env, s, t);
        },
        Node::Intrinsic { .. } => lemma_computes_intrinsic(m, me, cx, st, e, vis, env, s, t),
        _ => {},
    }
}

proof fn lemma_computes_intrinsic(m: Model, me: Seq<char>, cx: Cx, st: Em, e: Node, vis: Set<Seq<char>>, env: Env, s: Mach, t: Seq<Event>)
    requires
        e is Intrinsic,
        is_scalar(e, vis),
        is_placed(vis, st),
        binds_none(e, st.transfer),
        st.counter + lets(e) <= u64::MAX,
        holds(vis, st, env, s.locals),
        !(eval(m, me, env, e, t).out is Stuck),
    ensures
        eval(m, me, env, e, t).out is Done,
        eval(m, me, env, e, t).trace == t,
        is_left(
            run_code(m, s, code_of(cx, st, e)),
            s,
            st.counter,
            eval(m, me, env, e, t).out->Done_0,
        ),
    decreases e, 0nat,
{
    if let Node::Intrinsic { name, args, .. } = e {
        lemma_plain(name);
        let i = Instr::Plain(text_of(name));
        let first = code_of(cx, st, args[0]);
        lemma_emit(cx, st, args[0], vis);
        let a = em(cx, st, args[0]);
        let all = eval_all(m, me, env, args, t);
        if args.len() == 1 {
            lemma_eval_one(m, me, env, args, t);
            lemma_computes(m, me, cx, st, args[0], vis, env, s, t);
            let s1 = run_code(m, s, first)->Some_0;
            instructions_compute_their_intrinsics(m, name, all.vals, s.stack);
            assert(s.stack + cells(all.vals) =~= s1.stack);
            lemma_run_one(m, s1, i);
            lemma_run_join(m, s, first, seq![i]);
        } else {
            lemma_eval_two(m, me, env, args, t);
            lemma_computes(m, me, cx, st, args[0], vis, env, s, t);
            let s1 = run_code(m, s, first)->Some_0;
            lemma_still_placed(vis, st, a);
            lemma_still_holds(vis, st, a, env, s.locals, s1.locals);
            lemma_computes(m, me, cx, a, args[1], vis, env, s1, t);
            let second = code_of(cx, a, args[1]);
            let s2 = run_code(m, s1, second)->Some_0;
            instructions_compute_their_intrinsics(m, name, all.vals, s.stack);
            assert(s.stack + cells(all.vals) =~= s2.stack);
            lemma_run_join(m, s, first, second);
            lemma_run_one(m, s2, i);
            lemma_run_join(m, s, first + second, seq![i]);
            lemma_leaves(st.counter, a.counter, s.locals, s1.locals, s2.locals);
        }
    }
}

/// One expression.
proof fn lemma_eval_one(m: Model, me: Seq<char>, env: Env, s: Seq<Node>, t: Seq<Event>)
    requires
        s.len() == 1,
    ensures
        ({
            let r = eval_all(m, me, env, s, t);
            let a = eval(m, me, env, s[0], t);
            match a.out {
                Outcome::Done(x) => r.stop is None && r.vals.len() == 1 && r.vals[0] == x && r.trace
                    == a.trace,
                out => r.stop == Some(out) && r.trace == a.trace,
            }
        }),
{
    assert(eval_all(m, me, env, s.drop_last(), t) == (Runs {
        vals: Seq::empty(),
        stop: None,
        trace: t,
    }));
}

/// What is emitted for an expression without heap values is code that leaves the value
/// of the expression on the stack, whatever lies there and whatever values the
/// variables have. It reads no local that was not taken, and changes none that was.
pub proof fn emitted_code_computes_the_value(
    m: Model,
    me: Seq<char>,
    cx: Cx,
    st: Em,
    e: Node,
    vis: Set<Seq<char>>,
)
    requires
        is_scalar(e, vis),
        is_placed(vis, st),
        binds_none(e, st.transfer),
        st.counter + lets(e) <= u64::MAX,
    ensures
        exists|code: Seq<Instr>|
            #![trigger written_code(code)]
            {
                &&& emit(cx, st, e).code == st.code + written_code(code)
                &&& forall|env: Env, s: Mach, t: Seq<Event>|
                    #![trigger run_code(m, s, code), eval(m, me, env, e, t)]
                    holds(vis, st, env, s.locals) && !(eval(m, me, env, e, t).out is Stuck) ==> {
                        let r = eval(m, me, env, e, t);
                        &&& r.out is Done
                        &&& r.trace == t
                        &&& run_code(m, s, code) matches Some(x) && x.stack == s.stack.push(
                            cell(r.out->Done_0),
                        ) && leaves(st.counter, s.locals, x.locals)
                    }
            },
{
    let code = code_of(cx, st, e);
    lemma_emit(cx, st, e, vis);
    reveal(em);
    assert forall|env: Env, s: Mach, t: Seq<Event>|
        #![trigger run_code(m, s, code), eval(m, me, env, e, t)]
        holds(vis, st, env, s.locals) && !(eval(m, me, env, e, t).out is Stuck) implies ({
        let r = eval(m, me, env, e, t);
        &&& r.out is Done
        &&& r.trace == t
        &&& run_code(m, s, code) matches Some(x) && x.stack == s.stack.push(cell(r.out->Done_0))
            && leaves(st.counter, s.locals, x.locals)
    }) by {
        lemma_computes(m, me, cx, st, e, vis, env, s, t);
    }
}

} // verus!
