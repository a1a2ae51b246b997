//! The pieces of code that expressions are emitted from.

use vstd::prelude::*;

use super::data::string_offset;
use super::layout::{closure_size, sig_views, wasm_ty, Sig, WasmSig, WasmTy};
use super::layout::position;
use super::shapes::{
    array_key, array_shape, closure_key, closure_shape, find_shape, mangle, mangled, record_size,
    size_of_record, DropKey, DropTable, Drops, Shape,
};
use crate::ir::{capture_binds, Bind, IrCapture};
use crate::strings::{
    begins_with, contains_name, decimal, decimal_int, owned, push_decimal_int, push_wide, same,
    texts,
};
use crate::types::{heap, is_heap, Ty, Type};

verus! {

/// The tables of a module that code refers to.
pub struct Tables {
    /// The names of the top-level functions, by table index.
    pub functions: Vec<String>,
    /// How many lambdas follow them in the table.
    pub lambdas: usize,
    /// The signatures of indirect calls.
    pub sigs: Vec<WasmSig>,
    /// The string literals, and where each stands in memory.
    pub strings: Vec<String>,
    pub offsets: Vec<u64>,
    /// The heap shapes, whose drop functions follow the lambdas in the table.
    pub drops: DropTable,
}

/// What [`Tables`] say.
#[verifier::ext_equal]
pub struct Cx {
    pub functions: Seq<Seq<char>>,
    pub lambdas: nat,
    pub sigs: Seq<Sig>,
    pub strings: Seq<Seq<char>>,
    pub drops: Drops,
}

impl Tables {
    pub open spec fn view(&self) -> Cx {
        Cx {
            functions: texts(self.functions@),
            lambdas: self.lambdas as nat,
            sigs: sig_views(self.sigs@),
            strings: texts(self.strings@),
            drops: self.drops@,
        }
    }

    /// Whether the literals stand where they should.
    pub open spec fn wf(&self) -> bool {
        &&& self.drops.wf()
        &&& self.offsets@.len() == self.strings@.len()
        &&& forall|i: int|
            0 <= i < self.strings@.len() ==> #[trigger] self.offsets@[i] == string_offset(
                texts(self.strings@),
                i,
            )
    }
}

/// Where a bound name lives at run time.
pub enum Slot {
    /// A local (a parameter or a `let` binding).
    Local(String),
    /// A captured variable, at an offset into the environment pointer.
    Capture(u128, WasmTy),
}

/// What a [`Slot`] says.
#[verifier::ext_equal]
pub enum SlotT {
    Local(Seq<char>),
    Capture(nat, WasmTy),
}

impl Slot {
    pub open spec fn view(&self) -> SlotT {
        match self {
            Slot::Local(id) => SlotT::Local(id@),
            Slot::Capture(offset, ty) => SlotT::Capture(*offset as nat, *ty),
        }
    }
}

/// The state of the emission of one function.
pub struct FnEmitter {
    pub code: String,
    pub locals: Vec<(String, WasmTy)>,
    pub scope: Vec<(String, Slot)>,
    /// The number of the next temporary or label.
    pub counter: u64,
    /// Labels of the enclosing `try` blocks' catch handlers. A raise branches to
    /// the innermost one, or returns `Err` if there is none.
    pub catch_stack: Vec<String>,
    /// Binding names that are released somewhere.
    pub released: Vec<String>,
    /// Transfer temporaries: heap-typed, not released by name, consumed by their
    /// single read. Reading one zeroes its local.
    pub transfer: Vec<String>,
    /// Every heap-holding local in binding order, for unwind cleanup: a release
    /// obligation not yet met is exactly a non-zero entry, because every release
    /// or consumption zeroes its local.
    pub managed: Vec<String>,
    /// How many lambdas of the module come before the next one here.
    pub next_lambda: usize,
    /// The first error.
    pub error: Option<String>,
}

/// What an [`FnEmitter`] says.
#[verifier::ext_equal]
pub struct Em {
    pub code: Seq<char>,
    pub locals: Seq<(Seq<char>, WasmTy)>,
    pub scope: Seq<(Seq<char>, SlotT)>,
    pub counter: u64,
    pub catches: Seq<Seq<char>>,
    pub released: Seq<Seq<char>>,
    pub transfer: Seq<Seq<char>>,
    pub managed: Seq<Seq<char>>,
    pub next_lambda: nat,
    pub error: Option<Seq<char>>,
}

/// What a list of locals says.
pub open spec fn local_views(s: Seq<(String, WasmTy)>) -> Seq<(Seq<char>, WasmTy)> {
    s.map_values(|l: (String, WasmTy)| (l.0@, l.1))
}

/// What a scope says.
pub open spec fn scope_views(s: Seq<(String, Slot)>) -> Seq<(Seq<char>, SlotT)> {
    s.map_values(|b: (String, Slot)| (b.0@, b.1@))
}

impl FnEmitter {
    pub open spec fn view(&self) -> Em {
        Em {
            code: self.code@,
            locals: local_views(self.locals@),
            scope: scope_views(self.scope@),
            counter: self.counter,
            catches: texts(self.catch_stack@),
            released: texts(self.released@),
            transfer: texts(self.transfer@),
            managed: texts(self.managed@),
            next_lambda: self.next_lambda as nat,
            error: match self.error {
                Some(e) => Some(e@),
                None => None,
            },
        }
    }
}

/// The number after `n`.
pub open spec fn after(n: u64) -> u64 {
    if n < u64::MAX {
        (n + 1) as u64
    } else {
        n
    }
}

fn after_exec(n: u64) -> (r: u64)
    ensures
        r == after(n),
{
    if n < u64::MAX {
        n + 1
    } else {
        n
    }
}

/// A sum that stays within a machine word.
pub open spec fn plus(a: nat, b: nat) -> nat {
    if a + b <= usize::MAX {
        a + b
    } else {
        usize::MAX as nat
    }
}

/// The name of the temporary numbered `n`.
pub open spec fn local_id(n: u64) -> Seq<char> {
    "$v"@ + decimal(n as nat)
}

/// The name of the temporary numbered `n`.
pub fn id_text(n: u64) -> (r: String)
    ensures
        r@ == local_id(n),
{
    numbered("$v", n)
}

/// A name with a number.
pub fn numbered(head: &str, n: u64) -> (r: String)
    ensures
        r@ == head@ + decimal(n as nat),
{
    let mut out = owned(head);
    push_wide(&mut out, n as u128);
    out
}

fn integer_text(value: i32) -> (r: String)
    ensures
        r@ == decimal_int(value as int),
{
    let mut out = String::new();
    push_decimal_int(&mut out, value);
    assert(out@ =~= decimal_int(value as int));
    out
}

/// Text after the code.
#[verifier::opaque]
pub open spec fn raw(st: Em, text: Seq<char>) -> Em {
    Em { code: st.code + text, ..st }
}

/// Text after the code, in two parts.
#[verifier::opaque]
pub open spec fn put(st: Em, before: Seq<char>, text: Seq<char>) -> Em {
    Em { code: st.code + before + text, ..st }
}

/// Text and a number after the code.
#[verifier::opaque]
pub open spec fn putn(st: Em, before: Seq<char>, n: nat) -> Em {
    Em { code: st.code + before + decimal(n), ..st }
}

/// One more temporary.
#[verifier::opaque]
pub open spec fn fresh(st: Em, ty: WasmTy) -> Em {
    Em { locals: st.locals.push((local_id(st.counter), ty)), counter: after(st.counter), ..st }
}

/// One more number taken.
#[verifier::opaque]
pub open spec fn bumped(st: Em) -> Em {
    Em { counter: after(st.counter), ..st }
}

/// One more name in scope.
#[verifier::opaque]
pub open spec fn bound(st: Em, name: Seq<char>, slot: SlotT) -> Em {
    Em { scope: st.scope.push((name, slot)), ..st }
}

/// An error, unless there is one already.
#[verifier::opaque]
pub open spec fn failed(st: Em, message: Seq<char>) -> Em {
    if st.error is Some {
        st
    } else {
        Em { error: Some(message), ..st }
    }
}

/// One more catch handler.
#[verifier::opaque]
pub open spec fn caught_by(st: Em, label: Seq<char>) -> Em {
    Em { catches: st.catches.push(label), ..st }
}

/// Without the innermost catch handler.
#[verifier::opaque]
pub open spec fn uncaught(st: Em) -> Em {
    if st.catches.len() == 0 {
        st
    } else {
        Em { catches: st.catches.drop_last(), ..st }
    }
}

/// With the first `mark` names in scope.
#[verifier::opaque]
pub open spec fn scoped_to(st: Em, mark: nat) -> Em {
    if mark <= st.scope.len() {
        Em { scope: st.scope.take(mark as int), ..st }
    } else {
        st
    }
}

/// One more heap-holding local, bound to `name`.
#[verifier::opaque]
pub open spec fn managing(st: Em, id: Seq<char>, name: Seq<char>) -> Em {
    Em {
        managed: st.managed.push(id),
        transfer: if "$rc"@.is_prefix_of(name) && !st.released.contains(name) {
            st.transfer.push(name)
        } else {
            st.transfer
        },
        ..st
    }
}

/// One more heap-holding local, released by name.
#[verifier::opaque]
pub open spec fn holding(st: Em, id: Seq<char>) -> Em {
    Em { managed: st.managed.push(id), ..st }
}

/// Past `n` lambdas.
#[verifier::opaque]
pub open spec fn skipping(st: Em, n: nat) -> Em {
    Em { next_lambda: plus(st.next_lambda, n), ..st }
}

/// Where a name is bound.
pub open spec fn find_slot(scope: Seq<(Seq<char>, SlotT)>, name: Seq<char>) -> Option<SlotT>
    decreases scope.len(),
{
    if scope.len() == 0 {
        None
    } else if scope.last().0 == name {
        Some(scope.last().1)
    } else {
        find_slot(scope.drop_last(), name)
    }
}

/// Reads a variable.
pub open spec fn variable(st: Em, name: Seq<char>) -> Em {
    match find_slot(st.scope, name) {
        Some(SlotT::Local(id)) => {
            let got = raw(put(st, "    local.get "@, id), "\n"@);
            if st.transfer.contains(name) {
                raw(put(got, "    i32.const 0\n    local.set "@, id), "\n"@)
            } else {
                got
            }
        },
        Some(SlotT::Capture(at, ty)) => raw(
            put(
                putn(st, "    local.get $p0\n    i32.const "@, at),
                "\n    i32.add\n    "@,
                ty.load_text(),
            ),
            "\n"@,
        ),
        None => failed(st, "unbound variable `"@ + name + "` in wasm"@),
    }
}

/// Allocates a block of the size on the stack, stamping the shape's drop index
/// into its header.
pub open spec fn allocate(cx: Cx, st: Em, shape: Shape) -> Em {
    match position(cx.drops.keys, shape) {
        Some(i) => raw(
            putn(st, "    i32.const "@, cx.functions.len() + cx.lambdas + i),
            "\n    call $alloc\n"@,
        ),
        None => failed(st, "internal error: drop shape was not registered"@),
    }
}

/// Releases some locals and zeroes them.
pub open spec fn drop_locals(st: Em, ids: Seq<Seq<char>>) -> Em
    decreases ids.len(),
{
    if ids.len() == 0 {
        st
    } else {
        drop_local(drop_locals(st, ids.drop_last()), ids.last())
    }
}

/// Releases the managed locals from `from` on: the cleanup of an unwind. Zeroed
/// entries are ignored.
pub open spec fn release_managed(st: Em, from: nat) -> Em {
    if from <= st.managed.len() {
        drop_locals(st, st.managed.skip(from as int))
    } else {
        st
    }
}

/// Raises the error value on the stack: branches to the nearest enclosing
/// `catch`, which does its own cleanup, or returns an `Err` Result.
pub open spec fn raise_error(cx: Cx, st: Em) -> Em {
    if st.catches.len() > 0 {
        branch(st, st.catches.last())
    } else {
        return_error(cx, st)
    }
}

/// The temporaries of a concatenation.
pub open spec fn concat_open(st: Em) -> Em {
    let _a = local_id(st.counter);
    let s0 = fresh(st, WasmTy::I32);
    let _b = local_id(s0.counter);
    let s1 = fresh(s0, WasmTy::I32);
    let _len_a = local_id(s1.counter);
    let s2 = fresh(s1, WasmTy::I32);
    let _len_b = local_id(s2.counter);
    let s3 = fresh(s2, WasmTy::I32);
    let _out = local_id(s3.counter);
    let s4 = fresh(s3, WasmTy::I32);
    s4
}

/// Pops a value into the temporary numbered `c`.
pub open spec fn set_local(st: Em, c: u64) -> Em {
    let a = local_id(c);
    let s0 = put(st, "    local.set "@, a);
    let s1 = raw(s0, "\n"@);
    s1
}

/// Pushes the temporary numbered `c`.
pub open spec fn get_local(st: Em, c: u64) -> Em {
    let a = local_id(c);
    let s0 = put(st, "    local.get "@, a);
    let s1 = raw(s0, "\n"@);
    s1
}

/// Allocates `[len_a + len_b][bytes_a bytes_b]` and copies; the temporaries are
/// numbered from `c` on.
pub open spec fn concat_end(cx: Cx, st: Em, c: u64) -> Em {
    let a = local_id(c);
    let c1 = after(c);
    let b = local_id(c1);
    let c2 = after(c1);
    let len_a = local_id(c2);
    let c3 = after(c2);
    let len_b = local_id(c3);
    let c4 = after(c3);
    let out = local_id(c4);
    let s0 = put(st, "    local.set "@, b);
    let s1 = put(s0, "\n    local.get "@, a);
    let s2 = put(s1, "\n    i32.load\n    local.set "@, len_a);
    let s3 = put(s2, "\n    local.get "@, b);
    let s4 = put(s3, "\n    i32.load\n    local.set "@, len_b);
    let s5 = put(s4, "\n    i32.const 4\n    local.get "@, len_a);
    let s6 = put(s5, "\n    i32.add\n    local.get "@, len_b);
    let s7 = raw(s6, "\n    i32.add\n"@);
    let s8 = allocate(cx, s7, Shape::String);
    let s9 = put(s8, "    local.set "@, out);
    let s10 = put(s9, "\n    local.get "@, out);
    let s11 = put(s10, "\n    local.get "@, len_a);
    let s12 = put(s11, "\n    local.get "@, len_b);
    let s13 = put(s12, "\n    i32.add\n    i32.store\n    local.get "@, out);
    let s14 = put(s13, "\n    i32.const 4\n    i32.add\n    local.get "@, a);
    let s15 = put(s14, "\n    i32.const 4\n    i32.add\n    local.get "@, len_a);
    let s16 = put(s15, "\n    memory.copy\n    local.get "@, out);
    let s17 = put(s16, "\n    i32.const 4\n    i32.add\n    local.get "@, len_a);
    let s18 = put(s17, "\n    i32.add\n    local.get "@, b);
    let s19 = put(s18, "\n    i32.const 4\n    i32.add\n    local.get "@, len_b);
    let s20 = put(s19, "\n    memory.copy\n    local.get "@, out);
    let s21 = raw(s20, "\n"@);
    s21
}

/// The address of an array element, given its index on the stack.
pub open spec fn array_address(st: Em, size: nat) -> Em {
    let s0 = putn(st, "    i32.const "@, size);
    let s1 = raw(s0, "\n    i32.mul\n    i32.add\n"@);
    s1
}

/// Loads the element at the address on the stack. A heap element is retained:
/// the caller receives an owned reference.
pub open spec fn array_load(st: Em, elem_ty: Ty) -> Em {
    let s0 = array_address(st, wasm_ty(elem_ty).bytes());
    let s1 = load(s0, wasm_ty(elem_ty));
    let s2 = if heap(elem_ty) {
            let s120 = raw(s1, "    call $rc_retain\n"@);
            s120
        } else {
            s1
        };
    s2
}

/// Loads a value.
pub open spec fn load(st: Em, ty: WasmTy) -> Em {
    let s0 = put(st, "    "@, ty.load_text());
    let s1 = raw(s0, "\n"@);
    s1
}

/// Stores a value.
pub open spec fn store(st: Em, ty: WasmTy) -> Em {
    let s0 = put(st, "    "@, ty.store_text());
    let s1 = raw(s0, "\n"@);
    s1
}

/// The temporaries of an array push.
pub open spec fn push_open(st: Em) -> Em {
    let _a = local_id(st.counter);
    let s0 = fresh(st, WasmTy::I32);
    let _len = local_id(s0.counter);
    let s1 = fresh(s0, WasmTy::I32);
    let _out = local_id(s1.counter);
    let s2 = fresh(s1, WasmTy::I32);
    s2
}

/// Allocates a fresh `[len + 1][elements]` and copies the elements of the array
/// on the stack; the temporaries are numbered from `c` on.
pub open spec fn push_copy(cx: Cx, st: Em, c: u64, elem_ty: Ty) -> Em {
    let a = local_id(c);
    let c1 = after(c);
    let len = local_id(c1);
    let c2 = after(c1);
    let out = local_id(c2);
    let size = wasm_ty(elem_ty).bytes();
    let s0 = put(st, "    local.set "@, a);
    let s1 = put(s0, "\n    local.get "@, a);
    let s2 = put(s1, "\n    i32.load\n    local.set "@, len);
    let s3 = put(s2, "\n    i32.const 4\n    local.get "@, len);
    let s4 = putn(s3, "\n    i32.const 1\n    i32.add\n    i32.const "@, size);
    let s5 = raw(s4, "\n    i32.mul\n    i32.add\n"@);
    let s6 = allocate(cx, s5, array_shape(elem_ty));
    let s7 = put(s6, "    local.set "@, out);
    let s8 = put(s7, "\n    local.get "@, out);
    let s9 = put(s8, "\n    local.get "@, len);
    let s10 = put(s9, "\n    i32.const 1\n    i32.add\n    i32.store\n    local.get "@, out);
    let s11 = put(s10, "\n    i32.const 4\n    i32.add\n    local.get "@, a);
    let s12 = put(s11, "\n    i32.const 4\n    i32.add\n    local.get "@, len);
    let s13 = putn(s12, "\n    i32.const "@, size);
    let s14 = raw(s13, "\n    i32.mul\n    memory.copy\n"@);
    s14
}

/// Retains each copied element: it is now shared.
pub open spec fn push_retain(st: Em, c: u64, elem_ty: Ty) -> Em {
    let _a = local_id(c);
    let c1 = after(c);
    let len = local_id(c1);
    let c2 = after(c1);
    let out = local_id(c2);
    let size = wasm_ty(elem_ty).bytes();
    let i = local_id(st.counter);
    let s0 = fresh(st, WasmTy::I32);
    let n = s0.counter;
    let s1 = bumped(s0);
    let s2 = put(s1, "    i32.const 0\n    local.set "@, i);
    let s3 = putn(s2, "\n    block $push_done_"@, n as nat);
    let s4 = putn(s3, "\n    loop $push_each_"@, n as nat);
    let s5 = put(s4, "\n    local.get "@, i);
    let s6 = put(s5, "\n    local.get "@, len);
    let s7 = putn(s6, "\n    i32.ge_s\n    br_if $push_done_"@, n as nat);
    let s8 = put(s7, "\n    local.get "@, out);
    let s9 = put(s8, "\n    i32.const 4\n    i32.add\n    local.get "@, i);
    let s10 = putn(s9, "\n    i32.const "@, size);
    let s11 = put(s10, "\n    i32.mul\n    i32.add\n    i32.load\n    call $rc_retain\n    drop\n    local.get "@, i);
    let s12 = put(s11, "\n    i32.const 1\n    i32.add\n    local.set "@, i);
    let s13 = putn(s12, "\n    br $push_each_"@, n as nat);
    let s14 = raw(s13, "\n    end\n    end\n"@);
    s14
}

/// The address of the new last element.
pub open spec fn push_slot(st: Em, c: u64, elem_ty: Ty) -> Em {
    let _a = local_id(c);
    let c1 = after(c);
    let len = local_id(c1);
    let c2 = after(c1);
    let out = local_id(c2);
    let size = wasm_ty(elem_ty).bytes();
    let s0 = put(st, "    local.get "@, out);
    let s1 = put(s0, "\n    i32.const 4\n    i32.add\n    local.get "@, len);
    let s2 = putn(s1, "\n    i32.const "@, size);
    let s3 = raw(s2, "\n    i32.mul\n    i32.add\n"@);
    s3
}

/// Everything between the array and the value of an array push.
pub open spec fn push_middle(cx: Cx, st: Em, c: u64, elem_ty: Ty) -> Em {
    let s0 = push_copy(cx, st, c, elem_ty);
    let s1 = if heap(elem_ty) {
            let s110 = push_retain(s0, c, elem_ty);
            s110
        } else {
            s0
        };
    let s2 = push_slot(s1, c, elem_ty);
    s2
}

/// Stores the new last element and leaves the array.
pub open spec fn push_end(st: Em, c: u64, elem_ty: Ty) -> Em {
    let _a = local_id(c);
    let c1 = after(c);
    let _len = local_id(c1);
    let c2 = after(c1);
    let out = local_id(c2);
    let s0 = store(st, wasm_ty(elem_ty));
    let s1 = put(s0, "    local.get "@, out);
    let s2 = raw(s1, "\n"@);
    s2
}

/// Allocates a record: one 8-byte slot per field.
pub open spec fn record_open(cx: Cx, st: Em, mask: Seq<bool>) -> Em {
    let ptr = local_id(st.counter);
    let s0 = fresh(st, WasmTy::I32);
    let s1 = putn(s0, "    i32.const "@, record_size(mask.len()));
    let s2 = raw(s1, "\n"@);
    let s3 = allocate(cx, s2, Shape::Record { mask });
    let s4 = put(s3, "    local.set "@, ptr);
    let s5 = raw(s4, "\n"@);
    s5
}

/// Allocates `[tag: i32][8-byte field slots]`: binding offsets need no type
/// information.
pub open spec fn enum_open(cx: Cx, st: Em, ty: Ty, tag: u32, n: nat) -> Em {
    let ptr = local_id(st.counter);
    let s0 = fresh(st, WasmTy::I32);
    let s1 = putn(s0, "    i32.const "@, 8 + 8 * n);
    let s2 = raw(s1, "\n"@);
    let s3 = allocate(cx, s2, Shape::Enum(mangled(ty)));
    let s4 = put(s3, "    local.set "@, ptr);
    let s5 = put(s4, "\n    local.get "@, ptr);
    let s6 = putn(s5, "\n    i32.const "@, tag as nat);
    let s7 = raw(s6, "\n    i32.store\n"@);
    s7
}

/// Allocates `[len: i32][elements]`.
pub open spec fn array_open(cx: Cx, st: Em, elem_ty: Ty, n: nat) -> Em {
    let arr = local_id(st.counter);
    let s0 = fresh(st, WasmTy::I32);
    let s1 = putn(s0, "    i32.const "@, 4 + wasm_ty(elem_ty).bytes() * n);
    let s2 = raw(s1, "\n"@);
    let s3 = allocate(cx, s2, array_shape(elem_ty));
    let s4 = put(s3, "    local.set "@, arr);
    let s5 = put(s4, "\n    local.get "@, arr);
    let s6 = putn(s5, "\n    i32.const "@, n);
    let s7 = raw(s6, "\n    i32.store\n"@);
    s7
}

/// The address `at` bytes into the block in the temporary numbered `c`.
pub open spec fn slot_address(st: Em, c: u64, at: nat) -> Em {
    let ptr = local_id(c);
    let s0 = put(st, "    local.get "@, ptr);
    let s1 = putn(s0, "\n    i32.const "@, at);
    let s2 = raw(s1, "\n    i32.add\n"@);
    s2
}

/// Opens the block that a `match` on the temporary numbered `c` leaves with its
/// value.
pub open spec fn match_open(st: Em, c: u64, ty: Ty) -> Em {
    let n = st.counter;
    let s0 = bumped(st);
    let subject = local_id(c);
    let s1 = put(s0, "    local.set "@, subject);
    let s2 = putn(s1, "\n    (block $match_"@, n as nat);
    let s3 = put(s2, " (result "@, wasm_ty(ty).keyword_text());
    let s4 = raw(s3, ")\n"@);
    s4
}

/// Closes a block whose arms have all been tried.
pub open spec fn block_end(st: Em) -> Em {
    let s0 = raw(st, "    unreachable\n    )\n"@);
    s0
}

/// Tests the tag of a subject.
pub open spec fn tag_test(st: Em, subject: Seq<char>, tag: u32) -> Em {
    let s0 = put(st, "    local.get "@, subject);
    let s1 = putn(s0, "\n    i32.load\n    i32.const "@, tag as nat);
    let s2 = raw(s1, "\n    i32.eq\n    (if\n    (then\n"@);
    s2
}

/// Binds a payload field.
pub open spec fn bind_field(st: Em, subject: Seq<char>, name: Seq<char>, ty: Ty, at: nat) -> Em {
    let local = local_id(st.counter);
    let s0 = fresh(st, wasm_ty(ty));
    let s1 = put(s0, "    local.get "@, subject);
    let s2 = putn(s1, "\n    i32.const "@, at);
    let s3 = put(s2, "\n    i32.add\n    "@, wasm_ty(ty).load_text());
    let s4 = put(s3, "\n    local.set "@, local);
    let s5 = raw(s4, "\n"@);
    let s6 = bound(s5, name, SlotT::Local(local));
    s6
}

/// Binds the whole subject.
pub open spec fn bind_subject(st: Em, subject: Seq<char>, name: Seq<char>, ty: Ty) -> Em {
    let local = local_id(st.counter);
    let s0 = fresh(st, wasm_ty(ty));
    let s1 = put(s0, "    local.get "@, subject);
    let s2 = put(s1, "\n    local.set "@, local);
    let s3 = raw(s2, "\n"@);
    let s4 = bound(s3, name, SlotT::Local(local));
    s4
}

/// Wraps the success value on the stack into a `[ok: 1][value]` Result pointer.
pub open spec fn wrap_ok(cx: Cx, st: Em, ret: Ty) -> Em {
    let value = local_id(st.counter);
    let s0 = fresh(st, wasm_ty(ret));
    let s1 = put(s0, "    local.set "@, value);
    let s2 = raw(s1, "\n"@);
    let res = local_id(s2.counter);
    let s3 = fresh(s2, WasmTy::I32);
    let s4 = raw(s3, "    i32.const 16\n"@);
    let s5 = allocate(cx, s4, Shape::Leak);
    let s6 = put(s5, "    local.set "@, res);
    let s7 = put(s6, "\n    local.get "@, res);
    let s8 = put(s7, "\n    i32.const 1\n    i32.store\n    local.get "@, res);
    let s9 = put(s8, "\n    i32.const 8\n    i32.add\n    local.get "@, value);
    let s10 = put(s9, "\n    "@, wasm_ty(ret).store_text());
    let s11 = put(s10, "\n    local.get "@, res);
    let s12 = raw(s11, "\n"@);
    s12
}

/// Returns the error on the stack as an `Err` Result, after releasing what the
/// frame still owns.
pub open spec fn return_error(cx: Cx, st: Em) -> Em {
    let err = local_id(st.counter);
    let s0 = fresh(st, WasmTy::I32);
    let s1 = put(s0, "    local.set "@, err);
    let s2 = raw(s1, "\n"@);
    let s3 = release_managed(s2, 0);
    let res = local_id(s3.counter);
    let s4 = fresh(s3, WasmTy::I32);
    let s5 = raw(s4, "    i32.const 16\n"@);
    let s6 = allocate(cx, s5, Shape::Leak);
    let s7 = put(s6, "    local.set "@, res);
    let s8 = put(s7, "\n    local.get "@, res);
    let s9 = put(s8, "\n    i32.const 0\n    i32.store\n    local.get "@, res);
    let s10 = put(s9, "\n    i32.const 8\n    i32.add\n    local.get "@, err);
    let s11 = put(s10, "\n    i32.store\n    local.get "@, res);
    let s12 = raw(s11, "\n    return\n"@);
    s12
}

/// Frees a Result box: 16 bytes and the header.
pub open spec fn free_box(st: Em, r: Seq<char>) -> Em {
    let s0 = put(st, "    local.get "@, r);
    let s1 = raw(s0, "\n    i32.const 24\n    call $free\n"@);
    s1
}

/// Unwraps a Result pointer on the stack: on `Err`, raises the error; on `Ok`,
/// leaves the success value. The box is freed on both paths once its payload is
/// extracted.
pub open spec fn unwrap_result(cx: Cx, st: Em, ty: Ty) -> Em {
    let r = local_id(st.counter);
    let s0 = fresh(st, WasmTy::I32);
    let s1 = put(s0, "    local.set "@, r);
    let s2 = put(s1, "\n    local.get "@, r);
    let s3 = raw(s2, "\n    i32.load\n    i32.eqz\n    (if\n    (then\n"@);
    let err = local_id(s3.counter);
    let s4 = fresh(s3, WasmTy::I32);
    let s5 = put(s4, "    local.get "@, r);
    let s6 = put(s5, "\n    i32.const 8\n    i32.add\n    i32.load\n    local.set "@, err);
    let s7 = raw(s6, "\n"@);
    let s8 = free_box(s7, r);
    let s9 = put(s8, "    local.get "@, err);
    let s10 = raw(s9, "\n"@);
    let s11 = raise_error(cx, s10);
    let s12 = raw(s11, "    ))\n"@);
    let value = local_id(s12.counter);
    let s13 = fresh(s12, wasm_ty(ty));
    let s14 = put(s13, "    local.get "@, r);
    let s15 = put(s14, "\n    i32.const 8\n    i32.add\n    "@, wasm_ty(ty).load_text());
    let s16 = put(s15, "\n    local.set "@, value);
    let s17 = raw(s16, "\n"@);
    let s18 = free_box(s17, r);
    let s19 = put(s18, "    local.get "@, value);
    let s20 = raw(s19, "\n"@);
    s20
}

/// Opens the blocks of a `try`: the outer one leaves with its value, the inner
/// one yields the error pointer that a raise branches to it with.
pub open spec fn try_open(st: Em, ty: Ty) -> Em {
    let n = st.counter;
    let s0 = bumped(st);
    let s1 = putn(s0, "    (block $try_"@, n as nat);
    let s2 = put(s1, " (result "@, wasm_ty(ty).keyword_text());
    let s3 = putn(s2, ")\n    (block $catch_"@, n as nat);
    let s4 = raw(s3, " (result i32)\n"@);
    let s5 = caught_by(s4, "$catch_"@ + decimal(n as nat));
    s5
}

/// Ends the body of the `try` numbered `n`, and takes the error. Unwinding
/// skipped the body's releases: everything it still owns is a managed local from
/// the mark on.
pub open spec fn try_close(st: Em, n: u64, mark: nat) -> Em {
    let err = local_id(st.counter);
    let s0 = fresh(st, WasmTy::I32);
    let s1 = uncaught(s0);
    let s2 = putn(s1, "    br $try_"@, n as nat);
    let s3 = put(s2, "\n    )\n    local.set "@, err);
    let s4 = raw(s3, "\n"@);
    let s5 = release_managed(s4, mark);
    s5
}

/// A top-level function used as a value: a closure with no captures.
pub open spec fn function_ref(cx: Cx, st: Em, index: nat) -> Em {
    let closure = local_id(st.counter);
    let s0 = fresh(st, WasmTy::I32);
    let s1 = raw(s0, "    i32.const 4\n"@);
    let s2 = allocate(cx, s1, Shape::Plain { total: 16 });
    let s3 = put(s2, "    local.set "@, closure);
    let s4 = put(s3, "\n    local.get "@, closure);
    let s5 = putn(s4, "\n    i32.const "@, index);
    let s6 = put(s5, "\n    i32.store\n    local.get "@, closure);
    let s7 = raw(s6, "\n"@);
    s7
}

/// Stores a captured variable into the closure in the temporary numbered `c`. The
/// value comes from the enclosing scope; the environment owns its heap captures.
pub open spec fn capture(st: Em, c: u64, bind: Bind, at: nat) -> Em {
    let s0 = slot_address(st, c, at);
    let s1 = variable(s0, bind.name);
    let s2 = if heap(bind.ty) {
            let s120 = raw(s1, "    call $rc_retain\n"@);
            s120
        } else {
            s1
        };
    let s3 = store(s2, wasm_ty(bind.ty));
    s3
}

/// Allocates a closure: `[table_index][captures...]`.
pub open spec fn closure_open(cx: Cx, st: Em, captures: Seq<Bind>, index: nat) -> Em {
    let closure = local_id(st.counter);
    let s0 = fresh(st, WasmTy::I32);
    let s1 = putn(s0, "    i32.const "@, closure_size(captures));
    let s2 = raw(s1, "\n"@);
    let s3 = allocate(cx, s2, closure_shape(captures));
    let s4 = put(s3, "    local.set "@, closure);
    let s5 = put(s4, "\n    local.get "@, closure);
    let s6 = putn(s5, "\n    i32.const "@, index);
    let s7 = raw(s6, "\n    i32.store\n"@);
    s7
}

/// Calls the closure in the temporary numbered `c`, below its arguments.
pub open spec fn call_closure(st: Em, c: u64, sig: nat) -> Em {
    let closure = local_id(c);
    let s0 = put(st, "    local.get "@, closure);
    let s1 = putn(s0, "\n    i32.load\n    call_indirect (type $sig_"@, sig);
    let s2 = raw(s1, ")\n"@);
    s2
}

/// Pops a closure into a temporary; it is the environment of the call.
pub open spec fn hold_closure(st: Em) -> Em {
    let closure = local_id(st.counter);
    let s0 = fresh(st, WasmTy::I32);
    let s1 = put(s0, "    local.set "@, closure);
    let s2 = put(s1, "\n    local.get "@, closure);
    let s3 = raw(s2, "\n"@);
    s3
}

/// Binds the value on the stack. A heap value is released on an unwind; one that
/// the reference counts only pass on is consumed by its single read.
pub open spec fn let_bind(st: Em, name: Seq<char>, ty: Ty) -> Em {
    let id = local_id(st.counter);
    let s0 = fresh(st, wasm_ty(ty));
    let s1 = put(s0, "    local.set "@, id);
    let s2 = raw(s1, "\n"@);
    let s3 = if heap(ty) {
            let s130 = managing(s2, id, name);
            s130
        } else {
            s2
        };
    let s4 = bound(s3, name, SlotT::Local(id));
    s4
}

/// Releases a local and zeroes it, so that an unwind cannot release it again.
pub open spec fn drop_local(st: Em, id: Seq<char>) -> Em {
    let s0 = put(st, "    local.get "@, id);
    let s1 = put(s0, "\n    call $rc_release\n    i32.const 0\n    local.set "@, id);
    let s2 = raw(s1, "\n"@);
    s2
}

/// Reassigns a parameter from a temporary.
pub open spec fn pass_argument(st: Em, temp: Seq<char>, i: nat) -> Em {
    let s0 = put(st, "    local.get "@, temp);
    let s1 = putn(s0, "\n    local.set $p"@, i + 1);
    let s2 = raw(s1, "\n"@);
    s2
}

/// Pops a value into a temporary.
pub open spec fn hold(st: Em, ty: WasmTy) -> Em {
    let temp = local_id(st.counter);
    let s0 = fresh(st, ty);
    let s1 = put(s0, "    local.set "@, temp);
    let s2 = raw(s1, "\n"@);
    s2
}

/// Opens the branches of an `if`.
pub open spec fn if_open(st: Em, ty: Ty) -> Em {
    let s0 = put(st, "    if (result "@, wasm_ty(ty).keyword_text());
    let s1 = raw(s0, ")\n"@);
    s1
}

/// Loads a record's field. A loaded heap field leaves the borrowed record as an
/// owned value.
pub open spec fn field_load(st: Em, index: u32, ty: Ty) -> Em {
    let s0 = putn(st, "    i32.const "@, (index as nat) * 8);
    let s1 = raw(s0, "\n    i32.add\n"@);
    let s2 = load(s1, wasm_ty(ty));
    let s3 = if heap(ty) {
            let s130 = raw(s2, "    call $rc_retain\n"@);
            s130
        } else {
            s2
        };
    s3
}

/// Branches to a block.
pub open spec fn branch(st: Em, label: Seq<char>) -> Em {
    let s0 = put(st, "    br "@, label);
    let s1 = raw(s0, "\n"@);
    s1
}

/// Calls a function.
pub open spec fn call_named(st: Em, name: Seq<char>) -> Em {
    let s0 = put(st, "    call "@, name);
    let s1 = raw(s0, "\n"@);
    s1
}

/// Calls a function of the runtime.
pub open spec fn call_helper(st: Em, name: Seq<char>) -> Em {
    let s0 = put(st, "    call $"@, name);
    let s1 = raw(s0, "\n"@);
    s1
}

/// Calls a top-level function.
pub open spec fn call_function(st: Em, name: Seq<char>) -> Em {
    let s0 = put(st, "    call $f_"@, name);
    let s1 = raw(s0, "\n"@);
    s1
}

/// One instruction.
pub open spec fn instruction(st: Em, text: Seq<char>) -> Em {
    let s0 = put(st, "    "@, text);
    let s1 = raw(s0, "\n"@);
    s1
}

/// A constant.
pub open spec fn number(st: Em, n: nat) -> Em {
    let s0 = putn(st, "    i32.const "@, n);
    let s1 = raw(s0, "\n"@);
    s1
}

/// A `Float` constant.
pub open spec fn float(st: Em, text: Seq<char>) -> Em {
    let s0 = put(st, "    f64.const "@, text);
    let s1 = raw(s0, "\n"@);
    s1
}

/// An `Int` constant.
pub open spec fn integer(st: Em, value: i32) -> Em {
    let text = decimal_int(value as int);
    let s0 = put(st, "    i32.const "@, text);
    let s1 = raw(s0, "\n"@);
    s1
}

impl FnEmitter {
    /// An emitter for a function whose first lambda has `next_lambda` others of
    /// the module before it.
    pub fn new(released: Vec<String>, next_lambda: usize) -> (r: FnEmitter)
        ensures
            r@ == started(texts(released@), next_lambda as nat),
    {
        let r = FnEmitter {
            code: String::new(),
            locals: Vec::new(),
            scope: Vec::new(),
            counter: 0,
            catch_stack: Vec::new(),
            released,
            transfer: Vec::new(),
            managed: Vec::new(),
            next_lambda,
            error: None,
        };
        assert(r@ =~= started(texts(released@), next_lambda as nat));
        r
    }

    pub fn raw(&mut self, text: &str)
        ensures
            final(self)@ == raw(old(self)@, text@),
    {
        proof {
            reveal(raw);
        }
        self.code.push_str(text);
    }

    fn put(&mut self, before: &str, text: &str)
        ensures
            final(self)@ == put(old(self)@, before@, text@),
    {
        proof {
            reveal(put);
        }
        self.code.push_str(before);
        self.code.push_str(text);
    }

    fn putn(&mut self, before: &str, n: u128)
        ensures
            final(self)@ == putn(old(self)@, before@, n as nat),
    {
        proof {
            reveal(putn);
        }
        self.code.push_str(before);
        push_wide(&mut self.code, n);
    }

    pub fn fresh_local(&mut self, ty: WasmTy) -> (r: String)
        ensures
            r@ == local_id(old(self)@.counter),
            final(self)@ == fresh(old(self)@, ty),
    {
        proof {
            reveal(fresh);
        }
        let id = id_text(self.counter);
        self.counter = after_exec(self.counter);
        self.locals.push((id.clone(), ty));
        assert(local_views(self.locals@) =~= local_views(old(self).locals@).push((id@, ty)));
        id
    }

    fn bump(&mut self)
        ensures
            final(self)@ == bumped(old(self)@),
    {
        proof {
            reveal(bumped);
        }
        self.counter = after_exec(self.counter);
    }

    pub fn bind(&mut self, name: String, slot: Slot)
        ensures
            final(self)@ == bound(old(self)@, name@, slot@),
    {
        proof {
            reveal(bound);
        }
        self.scope.push((name, slot));
        assert(scope_views(self.scope@) =~= scope_views(old(self).scope@).push((name@, slot@)));
    }

    pub fn fail(&mut self, message: String)
        ensures
            final(self)@ == failed(old(self)@, message@),
    {
        proof {
            reveal(failed);
        }
        if self.error.is_none() {
            self.error = Some(message);
        }
    }

    fn catch_with(&mut self, label: String)
        ensures
            final(self)@ == caught_by(old(self)@, label@),
    {
        proof {
            reveal(caught_by);
        }
        self.catch_stack.push(label);
        assert(texts(self.catch_stack@) =~= texts(old(self).catch_stack@).push(label@));
    }

    fn end_catch(&mut self)
        ensures
            final(self)@ == uncaught(old(self)@),
    {
        proof {
            reveal(uncaught);
        }
        let ghost was = texts(self.catch_stack@);
        let _ended = self.catch_stack.pop();
        proof {
            assert(was.len() == old(self).catch_stack@.len());
            assert(was.len() > 0 ==> texts(self.catch_stack@) =~= was.drop_last());
            assert(was.len() == 0 ==> texts(self.catch_stack@) =~= was);
        }
    }

    /// How many names are in scope.
    pub fn scope_mark(&self) -> (r: usize)
        ensures
            r == self@.scope.len(),
    {
        self.scope.len()
    }

    /// How many locals are managed.
    pub fn managed_mark(&self) -> (r: usize)
        ensures
            r == self@.managed.len(),
    {
        self.managed.len()
    }

    pub fn unscope(&mut self, mark: usize)
        ensures
            final(self)@ == scoped_to(old(self)@, mark as nat),
    {
        proof {
            reveal(scoped_to);
        }
        let ghost was = scope_views(self.scope@);
        assert(was.len() == self.scope@.len());
        if mark <= self.scope.len() {
            self.scope.truncate(mark);
            assert(scope_views(self.scope@) =~= was.take(mark as int));
        }
    }

    fn manage(&mut self, id: String, name: &str)
        ensures
            final(self)@ == managing(old(self)@, id@, name@),
    {
        proof {
            reveal(managing);
        }
        self.managed.push(id);
        assert(texts(self.managed@) =~= texts(old(self).managed@).push(id@));
        if begins_with(name, "$rc") && !contains_name(&self.released, name) {
            self.transfer.push(owned(name));
            assert(texts(self.transfer@) =~= texts(old(self).transfer@).push(name@));
        }
    }

    pub fn hold_local(&mut self, id: String)
        ensures
            final(self)@ == holding(old(self)@, id@),
    {
        proof {
            reveal(holding);
        }
        self.managed.push(id);
        assert(texts(self.managed@) =~= texts(old(self).managed@).push(id@));
    }

    /// Passes `n` lambdas.
    pub fn skip(&mut self, n: usize)
        ensures
            final(self)@ == skipping(old(self)@, n as nat),
    {
        proof {
            reveal(skipping);
        }
        if n <= usize::MAX - self.next_lambda {
            self.next_lambda = self.next_lambda + n;
        } else {
            self.next_lambda = usize::MAX;
        }
    }

    fn slot<'a>(&'a self, name: &str) -> (r: Option<&'a Slot>)
        ensures
            match r {
                Some(slot) => find_slot(self@.scope, name@) == Some(slot@),
                None => find_slot(self@.scope, name@) is None,
            },
    {
        let ghost all = scope_views(self.scope@);
        let mut i: usize = self.scope.len();
        assert(all.take(all.len() as int) =~= all);
        while i > 0
            invariant
                i <= self.scope.len(),
                all == scope_views(self.scope@),
                find_slot(all, name@) == find_slot(all.take(i as int), name@),
            decreases i,
        {
            proof {
                assert(all.take(i as int).drop_last() =~= all.take(i - 1));
                assert(all.take(i as int).last() == (
                    self.scope@[i - 1].0@,
                    self.scope@[i - 1].1@,
                ));
            }
            if same(self.scope[i - 1].0.as_str(), name) {
                return Some(&self.scope[i - 1].1);
            }
            i -= 1;
        }
        None
    }

    /// The local that a name is bound to, if it is bound to one.
    pub fn local_of(&self, name: &str) -> (r: Option<String>)
        ensures
            match r {
                Some(id) => find_slot(self@.scope, name@) == Some(SlotT::Local(id@)),
                None => !(find_slot(self@.scope, name@) matches Some(SlotT::Local(_))),
            },
    {
        match self.slot(name) {
            Some(Slot::Local(id)) => Some(id.clone()),
            _ => None,
        }
    }

    pub fn variable(&mut self, name: &str)
        ensures
            final(self)@ == variable(old(self)@, name@),
    {
        let local = self.local_of(name);
        match local {
            Some(id) => {
                let passes = contains_name(&self.transfer, name);
                self.put("    local.get ", id.as_str());
                self.raw("\n");
                if passes {
                    self.put("    i32.const 0\n    local.set ", id.as_str());
                    self.raw("\n");
                }
            },
            None => {
                let captured: Option<(u128, WasmTy)> = match self.slot(name) {
                    Some(Slot::Capture(at, ty)) => Some((*at, *ty)),
                    _ => None,
                };
                match captured {
                    Some((at, ty)) => {
                        self.putn("    local.get $p0\n    i32.const ", at);
                        self.put("\n    i32.add\n    ", ty.load());
                        self.raw("\n");
                    },
                    None => {
                        let mut message = owned("unbound variable `");
                        message.push_str(name);
                        message.push_str("` in wasm");
                        self.fail(message);
                    },
                }
            },
        }
    }

    fn allocate(&mut self, cx: &Tables, key: &DropKey)
        ensures
            final(self)@ == allocate(cx@, old(self)@, key@),
    {
        match find_shape(&cx.drops.keys, key) {
            Some(i) => {
                let index: u128 = cx.functions.len() as u128 + cx.lambdas as u128 + i as u128;
                self.putn("    i32.const ", index);
                self.raw("\n    call $alloc\n");
            },
            None => self.fail(owned("internal error: drop shape was not registered")),
        }
    }

    pub fn release_managed(&mut self, from: usize)
        ensures
            final(self)@ == release_managed(old(self)@, from as nat),
    {
        let ghost all = texts(self.managed@);
        assert(all.len() == self.managed@.len());
        if from <= self.managed.len() {
            let ghost ids = all.skip(from as int);
            let names = crate::strings::copy_names(&self.managed);
            let mut i: usize = from;
            assert(ids.take(0).len() == 0);
            assert(names@.len() == all.len()) by {
                assert(texts(names@).len() == names@.len());
            }
            while i < names.len()
                invariant
                    from <= i <= names.len(),
                    texts(names@) == all,
                    names@.len() == all.len(),
                    ids == all.skip(from as int),
                    self@ == drop_locals(old(self)@, ids.take(i - from)),
                decreases names.len() - i,
            {
                self.drop_local(names[i].as_str());
                proof {
                    assert(ids.take(i + 1 - from).drop_last() =~= ids.take(i - from));
                    assert(ids.take(i + 1 - from).last() == names@[i as int]@);
                }
                i += 1;
            }
            assert(ids.take(ids.len() as int) =~= ids);
        }
    }

    pub fn raise_error(&mut self, cx: &Tables)
        requires
            cx.wf(),
        ensures
            final(self)@ == raise_error(cx@, old(self)@),
    {
        assert(texts(self.catch_stack@).len() == self.catch_stack@.len());
        if self.catch_stack.len() > 0 {
            let label = self.catch_stack[self.catch_stack.len() - 1].clone();
            assert(self@.catches.last() == label@);
            self.branch(label.as_str());
        } else {
            self.return_error(cx);
        }
    }

    pub fn concat_open(&mut self)
        ensures
            final(self)@ == concat_open(old(self)@),
    {
        let _a = self.fresh_local(WasmTy::I32);
        let _b = self.fresh_local(WasmTy::I32);
        let _len_a = self.fresh_local(WasmTy::I32);
        let _len_b = self.fresh_local(WasmTy::I32);
        let _out = self.fresh_local(WasmTy::I32);
    }

    pub fn set_local(&mut self, c: u64)
        ensures
            final(self)@ == set_local(old(self)@, c),
    {
        let a = id_text(c);
        self.put("    local.set ", a.as_str());
        self.raw("\n");
    }

    pub fn get_local(&mut self, c: u64)
        ensures
            final(self)@ == get_local(old(self)@, c),
    {
        let a = id_text(c);
        self.put("    local.get ", a.as_str());
        self.raw("\n");
    }

    pub fn concat_end(&mut self, cx: &Tables, c: u64)
        requires
            cx.wf(),
        ensures
            final(self)@ == concat_end(cx@, old(self)@, c),
    {
        let a = id_text(c);
        let c1: u64 = after_exec(c);
        let b = id_text(c1);
        let c2: u64 = after_exec(c1);
        let len_a = id_text(c2);
        let c3: u64 = after_exec(c2);
        let len_b = id_text(c3);
        let c4: u64 = after_exec(c3);
        let out = id_text(c4);
        self.put("    local.set ", b.as_str());
        self.put("\n    local.get ", a.as_str());
        self.put("\n    i32.load\n    local.set ", len_a.as_str());
        self.put("\n    local.get ", b.as_str());
        self.put("\n    i32.load\n    local.set ", len_b.as_str());
        self.put("\n    i32.const 4\n    local.get ", len_a.as_str());
        self.put("\n    i32.add\n    local.get ", len_b.as_str());
        self.raw("\n    i32.add\n");
        self.allocate(cx, &DropKey::String);
        self.put("    local.set ", out.as_str());
        self.put("\n    local.get ", out.as_str());
        self.put("\n    local.get ", len_a.as_str());
        self.put("\n    local.get ", len_b.as_str());
        self.put("\n    i32.add\n    i32.store\n    local.get ", out.as_str());
        self.put("\n    i32.const 4\n    i32.add\n    local.get ", a.as_str());
        self.put("\n    i32.const 4\n    i32.add\n    local.get ", len_a.as_str());
        self.put("\n    memory.copy\n    local.get ", out.as_str());
        self.put("\n    i32.const 4\n    i32.add\n    local.get ", len_a.as_str());
        self.put("\n    i32.add\n    local.get ", b.as_str());
        self.put("\n    i32.const 4\n    i32.add\n    local.get ", len_b.as_str());
        self.put("\n    memory.copy\n    local.get ", out.as_str());
        self.raw("\n");
    }

    pub fn array_address(&mut self, size: u128)
        ensures
            final(self)@ == array_address(old(self)@, size as nat),
    {
        self.putn("    i32.const ", size);
        self.raw("\n    i32.mul\n    i32.add\n");
    }

    pub fn array_load(&mut self, elem_ty: &Type)
        ensures
            final(self)@ == array_load(old(self)@, elem_ty@),
    {
        self.array_address(WasmTy::of(elem_ty).size());
        self.load(WasmTy::of(elem_ty));
        if is_heap(elem_ty) {
            self.raw("    call $rc_retain\n");
        }
    }

    pub fn load(&mut self, ty: WasmTy)
        ensures
            final(self)@ == load(old(self)@, ty),
    {
        self.put("    ", ty.load());
        self.raw("\n");
    }

    pub fn store(&mut self, ty: WasmTy)
        ensures
            final(self)@ == store(old(self)@, ty),
    {
        self.put("    ", ty.store());
        self.raw("\n");
    }

    pub fn push_open(&mut self)
        ensures
            final(self)@ == push_open(old(self)@),
    {
        let _a = self.fresh_local(WasmTy::I32);
        let _len = self.fresh_local(WasmTy::I32);
        let _out = self.fresh_local(WasmTy::I32);
    }

    pub fn push_copy(&mut self, cx: &Tables, c: u64, elem_ty: &Type)
        requires
            cx.wf(),
        ensures
            final(self)@ == push_copy(cx@, old(self)@, c, elem_ty@),
    {
        let a = id_text(c);
        let c1: u64 = after_exec(c);
        let len = id_text(c1);
        let c2: u64 = after_exec(c1);
        let out = id_text(c2);
        let size: u128 = WasmTy::of(elem_ty).size();
        self.put("    local.set ", a.as_str());
        self.put("\n    local.get ", a.as_str());
        self.put("\n    i32.load\n    local.set ", len.as_str());
        self.put("\n    i32.const 4\n    local.get ", len.as_str());
        self.putn("\n    i32.const 1\n    i32.add\n    i32.const ", size);
        self.raw("\n    i32.mul\n    i32.add\n");
        self.allocate(cx, &array_key(elem_ty));
        self.put("    local.set ", out.as_str());
        self.put("\n    local.get ", out.as_str());
        self.put("\n    local.get ", len.as_str());
        self.put("\n    i32.const 1\n    i32.add\n    i32.store\n    local.get ", out.as_str());
        self.put("\n    i32.const 4\n    i32.add\n    local.get ", a.as_str());
        self.put("\n    i32.const 4\n    i32.add\n    local.get ", len.as_str());
        self.putn("\n    i32.const ", size);
        self.raw("\n    i32.mul\n    memory.copy\n");
    }

    pub fn push_retain(&mut self, c: u64, elem_ty: &Type)
        ensures
            final(self)@ == push_retain(old(self)@, c, elem_ty@),
    {
        let _a = id_text(c);
        let c1: u64 = after_exec(c);
        let len = id_text(c1);
        let c2: u64 = after_exec(c1);
        let out = id_text(c2);
        let size: u128 = WasmTy::of(elem_ty).size();
        let i = self.fresh_local(WasmTy::I32);
        let n: u64 = self.counter;
        self.bump();
        self.put("    i32.const 0\n    local.set ", i.as_str());
        self.putn("\n    block $push_done_", n as u128);
        self.putn("\n    loop $push_each_", n as u128);
        self.put("\n    local.get ", i.as_str());
        self.put("\n    local.get ", len.as_str());
        self.putn("\n    i32.ge_s\n    br_if $push_done_", n as u128);
        self.put("\n    local.get ", out.as_str());
        self.put("\n    i32.const 4\n    i32.add\n    local.get ", i.as_str());
        self.putn("\n    i32.const ", size);
        self.put("\n    i32.mul\n    i32.add\n    i32.load\n    call $rc_retain\n    drop\n    local.get ", i.as_str());
        self.put("\n    i32.const 1\n    i32.add\n    local.set ", i.as_str());
        self.putn("\n    br $push_each_", n as u128);
        self.raw("\n    end\n    end\n");
    }

    pub fn push_slot(&mut self, c: u64, elem_ty: &Type)
        ensures
            final(self)@ == push_slot(old(self)@, c, elem_ty@),
    {
        let _a = id_text(c);
        let c1: u64 = after_exec(c);
        let len = id_text(c1);
        let c2: u64 = after_exec(c1);
        let out = id_text(c2);
        let size: u128 = WasmTy::of(elem_ty).size();
        self.put("    local.get ", out.as_str());
        self.put("\n    i32.const 4\n    i32.add\n    local.get ", len.as_str());
        self.putn("\n    i32.const ", size);
        self.raw("\n    i32.mul\n    i32.add\n");
    }

    pub fn push_middle(&mut self, cx: &Tables, c: u64, elem_ty: &Type)
        requires
            cx.wf(),
        ensures
            final(self)@ == push_middle(cx@, old(self)@, c, elem_ty@),
    {
        self.push_copy(cx, c, elem_ty);
        if is_heap(elem_ty) {
            self.push_retain(c, elem_ty);
        }
        self.push_slot(c, elem_ty);
    }

    pub fn push_end(&mut self, c: u64, elem_ty: &Type)
        ensures
            final(self)@ == push_end(old(self)@, c, elem_ty@),
    {
        let _a = id_text(c);
        let c1: u64 = after_exec(c);
        let _len = id_text(c1);
        let c2: u64 = after_exec(c1);
        let out = id_text(c2);
        self.store(WasmTy::of(elem_ty));
        self.put("    local.get ", out.as_str());
        self.raw("\n");
    }

    pub fn record_open(&mut self, cx: &Tables, mask: Vec<bool>)
        requires
            cx.wf(),
        ensures
            final(self)@ == record_open(cx@, old(self)@, mask@),
    {
        let n: usize = mask.len();
        let ptr = self.fresh_local(WasmTy::I32);
        self.putn("    i32.const ", size_of_record(n));
        self.raw("\n");
        self.allocate(cx, &DropKey::Record { mask });
        self.put("    local.set ", ptr.as_str());
        self.raw("\n");
    }

    pub fn enum_open(&mut self, cx: &Tables, ty: &Type, tag: u32, n: usize)
        requires
            cx.wf(),
        ensures
            final(self)@ == enum_open(cx@, old(self)@, ty@, tag, n as nat),
    {
        let ptr = self.fresh_local(WasmTy::I32);
        self.putn("    i32.const ", 8 + 8 * (n as u128));
        self.raw("\n");
        self.allocate(cx, &DropKey::Enum(mangle(ty)));
        self.put("    local.set ", ptr.as_str());
        self.put("\n    local.get ", ptr.as_str());
        self.putn("\n    i32.const ", tag as u128);
        self.raw("\n    i32.store\n");
    }

    pub fn array_open(&mut self, cx: &Tables, elem_ty: &Type, n: usize)
        requires
            cx.wf(),
        ensures
            final(self)@ == array_open(cx@, old(self)@, elem_ty@, n as nat),
    {
        let arr = self.fresh_local(WasmTy::I32);
        self.putn("    i32.const ", 4 + WasmTy::of(elem_ty).size() * (n as u128));
        self.raw("\n");
        self.allocate(cx, &array_key(elem_ty));
        self.put("    local.set ", arr.as_str());
        self.put("\n    local.get ", arr.as_str());
        self.putn("\n    i32.const ", n as u128);
        self.raw("\n    i32.store\n");
    }

    pub fn slot_address(&mut self, c: u64, at: u128)
        ensures
            final(self)@ == slot_address(old(self)@, c, at as nat),
    {
        let ptr = id_text(c);
        self.put("    local.get ", ptr.as_str());
        self.putn("\n    i32.const ", at);
        self.raw("\n    i32.add\n");
    }

    pub fn match_open(&mut self, c: u64, ty: &Type)
        ensures
            final(self)@ == match_open(old(self)@, c, ty@),
    {
        let n: u64 = self.counter;
        self.bump();
        let subject = id_text(c);
        self.put("    local.set ", subject.as_str());
        self.putn("\n    (block $match_", n as u128);
        self.put(" (result ", WasmTy::of(ty).keyword());
        self.raw(")\n");
    }

    pub fn block_end(&mut self)
        ensures
            final(self)@ == block_end(old(self)@),
    {
        self.raw("    unreachable\n    )\n");
    }

    pub fn tag_test(&mut self, subject: &str, tag: u32)
        ensures
            final(self)@ == tag_test(old(self)@, subject@, tag),
    {
        self.put("    local.get ", subject);
        self.putn("\n    i32.load\n    i32.const ", tag as u128);
        self.raw("\n    i32.eq\n    (if\n    (then\n");
    }

    pub fn bind_field(&mut self, subject: &str, name: &String, ty: &Type, at: u128)
        ensures
            final(self)@ == bind_field(old(self)@, subject@, name@, ty@, at as nat),
    {
        let local = self.fresh_local(WasmTy::of(ty));
        self.put("    local.get ", subject);
        self.putn("\n    i32.const ", at);
        self.put("\n    i32.add\n    ", WasmTy::of(ty).load());
        self.put("\n    local.set ", local.as_str());
        self.raw("\n");
        self.bind(name.clone(), Slot::Local(local));
    }

    pub fn bind_subject(&mut self, subject: &str, name: &String, ty: &Type)
        ensures
            final(self)@ == bind_subject(old(self)@, subject@, name@, ty@),
    {
        let local = self.fresh_local(WasmTy::of(ty));
        self.put("    local.get ", subject);
        self.put("\n    local.set ", local.as_str());
        self.raw("\n");
        self.bind(name.clone(), Slot::Local(local));
    }

    pub fn wrap_ok(&mut self, cx: &Tables, ret: &Type)
        requires
            cx.wf(),
        ensures
            final(self)@ == wrap_ok(cx@, old(self)@, ret@),
    {
        let value = self.fresh_local(WasmTy::of(ret));
        self.put("    local.set ", value.as_str());
        self.raw("\n");
        let res = self.fresh_local(WasmTy::I32);
        self.raw("    i32.const 16\n");
        self.allocate(cx, &DropKey::Leak);
        self.put("    local.set ", res.as_str());
        self.put("\n    local.get ", res.as_str());
        self.put("\n    i32.const 1\n    i32.store\n    local.get ", res.as_str());
        self.put("\n    i32.const 8\n    i32.add\n    local.get ", value.as_str());
        self.put("\n    ", WasmTy::of(ret).store());
        self.put("\n    local.get ", res.as_str());
        self.raw("\n");
    }

    pub fn return_error(&mut self, cx: &Tables)
        requires
            cx.wf(),
        ensures
            final(self)@ == return_error(cx@, old(self)@),
    {
        let err = self.fresh_local(WasmTy::I32);
        self.put("    local.set ", err.as_str());
        self.raw("\n");
        self.release_managed(0);
        let res = self.fresh_local(WasmTy::I32);
        self.raw("    i32.const 16\n");
        self.allocate(cx, &DropKey::Leak);
        self.put("    local.set ", res.as_str());
        self.put("\n    local.get ", res.as_str());
        self.put("\n    i32.const 0\n    i32.store\n    local.get ", res.as_str());
        self.put("\n    i32.const 8\n    i32.add\n    local.get ", err.as_str());
        self.put("\n    i32.store\n    local.get ", res.as_str());
        self.raw("\n    return\n");
    }

    pub fn free_box(&mut self, r: &str)
        ensures
            final(self)@ == free_box(old(self)@, r@),
    {
        self.put("    local.get ", r);
        self.raw("\n    i32.const 24\n    call $free\n");
    }

    pub fn unwrap_result(&mut self, cx: &Tables, ty: &Type)
        requires
            cx.wf(),
        ensures
            final(self)@ == unwrap_result(cx@, old(self)@, ty@),
    {
        let r = self.fresh_local(WasmTy::I32);
        self.put("    local.set ", r.as_str());
        self.put("\n    local.get ", r.as_str());
        self.raw("\n    i32.load\n    i32.eqz\n    (if\n    (then\n");
        let err = self.fresh_local(WasmTy::I32);
        self.put("    local.get ", r.as_str());
        self.put("\n    i32.const 8\n    i32.add\n    i32.load\n    local.set ", err.as_str());
        self.raw("\n");
        self.free_box(r.as_str());
        self.put("    local.get ", err.as_str());
        self.raw("\n");
        self.raise_error(cx);
        self.raw("    ))\n");
        let value = self.fresh_local(WasmTy::of(ty));
        self.put("    local.get ", r.as_str());
        self.put("\n    i32.const 8\n    i32.add\n    ", WasmTy::of(ty).load());
        self.put("\n    local.set ", value.as_str());
        self.raw("\n");
        self.free_box(r.as_str());
        self.put("    local.get ", value.as_str());
        self.raw("\n");
    }

    pub fn try_open(&mut self, ty: &Type)
        ensures
            final(self)@ == try_open(old(self)@, ty@),
    {
        let n: u64 = self.counter;
        self.bump();
        self.putn("    (block $try_", n as u128);
        self.put(" (result ", WasmTy::of(ty).keyword());
        self.putn(")\n    (block $catch_", n as u128);
        self.raw(" (result i32)\n");
        self.catch_with(numbered("$catch_", n));
    }

    pub fn try_close(&mut self, n: u64, mark: usize)
        ensures
            final(self)@ == try_close(old(self)@, n, mark as nat),
    {
        let err = self.fresh_local(WasmTy::I32);
        self.end_catch();
        self.putn("    br $try_", n as u128);
        self.put("\n    )\n    local.set ", err.as_str());
        self.raw("\n");
        self.release_managed(mark);
    }

    pub fn function_ref(&mut self, cx: &Tables, index: u128)
        requires
            cx.wf(),
        ensures
            final(self)@ == function_ref(cx@, old(self)@, index as nat),
    {
        let closure = self.fresh_local(WasmTy::I32);
        self.raw("    i32.const 4\n");
        self.allocate(cx, &DropKey::Plain { total: 16 });
        self.put("    local.set ", closure.as_str());
        self.put("\n    local.get ", closure.as_str());
        self.putn("\n    i32.const ", index);
        self.put("\n    i32.store\n    local.get ", closure.as_str());
        self.raw("\n");
    }

    pub fn capture(&mut self, c: u64, bind: &IrCapture, at: u128)
        ensures
            final(self)@ == capture(old(self)@, c, bind@, at as nat),
    {
        self.slot_address(c, at);
        self.variable(bind.name.as_str());
        if is_heap(&bind.ty) {
            self.raw("    call $rc_retain\n");
        }
        self.store(WasmTy::of(&bind.ty));
    }

    pub fn closure_open(&mut self, cx: &Tables, captures: &Vec<IrCapture>, size: u128, index: u128)
        requires
            cx.wf(),
            size == closure_size(capture_binds(captures@)),
        ensures
            final(self)@ == closure_open(cx@, old(self)@, capture_binds(captures@), index as nat),
    {
        let closure = self.fresh_local(WasmTy::I32);
        self.putn("    i32.const ", size);
        self.raw("\n");
        self.allocate(cx, &closure_key(captures));
        self.put("    local.set ", closure.as_str());
        self.put("\n    local.get ", closure.as_str());
        self.putn("\n    i32.const ", index);
        self.raw("\n    i32.store\n");
    }

    pub fn call_closure(&mut self, c: u64, sig: usize)
        ensures
            final(self)@ == call_closure(old(self)@, c, sig as nat),
    {
        let closure = id_text(c);
        self.put("    local.get ", closure.as_str());
        self.putn("\n    i32.load\n    call_indirect (type $sig_", sig as u128);
        self.raw(")\n");
    }

    pub fn hold_closure(&mut self)
        ensures
            final(self)@ == hold_closure(old(self)@),
    {
        let closure = self.fresh_local(WasmTy::I32);
        self.put("    local.set ", closure.as_str());
        self.put("\n    local.get ", closure.as_str());
        self.raw("\n");
    }

    pub fn let_bind(&mut self, name: &String, ty: &Type)
        ensures
            final(self)@ == let_bind(old(self)@, name@, ty@),
    {
        let id = self.fresh_local(WasmTy::of(ty));
        self.put("    local.set ", id.as_str());
        self.raw("\n");
        if is_heap(ty) {
            self.manage(id.clone(), name.as_str());
        }
        self.bind(name.clone(), Slot::Local(id));
    }

    pub fn drop_local(&mut self, id: &str)
        ensures
            final(self)@ == drop_local(old(self)@, id@),
    {
        self.put("    local.get ", id);
        self.put("\n    call $rc_release\n    i32.const 0\n    local.set ", id);
        self.raw("\n");
    }

    pub fn pass_argument(&mut self, temp: &str, i: usize)
        ensures
            final(self)@ == pass_argument(old(self)@, temp@, i as nat),
    {
        self.put("    local.get ", temp);
        self.putn("\n    local.set $p", i as u128 + 1);
        self.raw("\n");
    }

    pub fn hold(&mut self, ty: WasmTy)
        ensures
            final(self)@ == hold(old(self)@, ty),
    {
        let temp = self.fresh_local(ty);
        self.put("    local.set ", temp.as_str());
        self.raw("\n");
    }

    pub fn if_open(&mut self, ty: &Type)
        ensures
            final(self)@ == if_open(old(self)@, ty@),
    {
        self.put("    if (result ", WasmTy::of(ty).keyword());
        self.raw(")\n");
    }

    pub fn field_load(&mut self, index: u32, ty: &Type)
        ensures
            final(self)@ == field_load(old(self)@, index, ty@),
    {
        self.putn("    i32.const ", index as u128 * 8);
        self.raw("\n    i32.add\n");
        self.load(WasmTy::of(ty));
        if is_heap(ty) {
            self.raw("    call $rc_retain\n");
        }
    }

    pub fn branch(&mut self, label: &str)
        ensures
            final(self)@ == branch(old(self)@, label@),
    {
        self.put("    br ", label);
        self.raw("\n");
    }

    pub fn call_named(&mut self, name: &str)
        ensures
            final(self)@ == call_named(old(self)@, name@),
    {
        self.put("    call ", name);
        self.raw("\n");
    }

    pub fn call_helper(&mut self, name: &str)
        ensures
            final(self)@ == call_helper(old(self)@, name@),
    {
        self.put("    call $", name);
        self.raw("\n");
    }

    pub fn call_function(&mut self, name: &str)
        ensures
            final(self)@ == call_function(old(self)@, name@),
    {
        self.put("    call $f_", name);
        self.raw("\n");
    }

    pub fn instruction(&mut self, text: &str)
        ensures
            final(self)@ == instruction(old(self)@, text@),
    {
        self.put("    ", text);
        self.raw("\n");
    }

    pub fn number(&mut self, n: u128)
        ensures
            final(self)@ == number(old(self)@, n as nat),
    {
        self.putn("    i32.const ", n);
        self.raw("\n");
    }

    pub fn float(&mut self, text: &str)
        ensures
            final(self)@ == float(old(self)@, text@),
    {
        self.put("    f64.const ", text);
        self.raw("\n");
    }

    pub fn integer(&mut self, value: i32)
        ensures
            final(self)@ == integer(old(self)@, value),
    {
        let text = integer_text(value);
        self.put("    i32.const ", text.as_str());
        self.raw("\n");
    }
}

/// The state before the first instruction.
pub open spec fn started(released: Seq<Seq<char>>, next_lambda: nat) -> Em {
    Em {
        code: Seq::empty(),
        locals: Seq::empty(),
        scope: Seq::empty(),
        counter: 0,
        catches: Seq::empty(),
        released,
        transfer: Seq::empty(),
        managed: Seq::empty(),
        next_lambda,
        error: None,
    }
}

} // verus!
