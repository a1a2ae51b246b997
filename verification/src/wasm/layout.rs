//! How values are represented in a WebAssembly module.
//!
//! - `Int`, `Bool` and `Unit` are an `i32` (`Unit` is the constant `0`).
//! - `Float` is an `f64`.
//! - `String`, `Array` and function values are `i32` pointers into linear
//!   memory.

use vstd::prelude::*;

use crate::ir::{
    capture_binds, node_ty, param_binds, Bind, IrCapture, IrExpr, IrParam, Node,
};
use crate::types::{tys, FnTy, FunctionType, Ty, Type};

verus! {

/// The numeric WebAssembly type a value is represented with.
#[derive(Debug, Clone, Copy, PartialEq, Eq, Hash, Structural)]
pub enum WasmTy {
    I32,
    F64,
}

/// The representation of a type.
pub open spec fn wasm_ty(t: Ty) -> WasmTy {
    match t {
        Ty::Float => WasmTy::F64,
        _ => WasmTy::I32,
    }
}

impl WasmTy {
    pub open spec fn keyword_text(self) -> Seq<char> {
        match self {
            WasmTy::I32 => "i32"@,
            WasmTy::F64 => "f64"@,
        }
    }

    pub open spec fn bytes(self) -> nat {
        match self {
            WasmTy::I32 => 4,
            WasmTy::F64 => 8,
        }
    }

    pub open spec fn load_text(self) -> Seq<char> {
        match self {
            WasmTy::I32 => "i32.load"@,
            WasmTy::F64 => "f64.load"@,
        }
    }

    pub open spec fn store_text(self) -> Seq<char> {
        match self {
            WasmTy::I32 => "i32.store"@,
            WasmTy::F64 => "f64.store"@,
        }
    }

    /// The representation of a type.
    pub fn of(ty: &Type) -> (r: WasmTy)
        ensures
            r == wasm_ty(ty@),
    {
        match ty {
            Type::Float => WasmTy::F64,
            _ => WasmTy::I32,
        }
    }

    /// The type's name in the text format.
    pub fn keyword(self) -> (r: &'static str)
        ensures
            r@ == self.keyword_text(),
    {
        match self {
            WasmTy::I32 => "i32",
            WasmTy::F64 => "f64",
        }
    }

    /// How many bytes a value takes in memory.
    pub fn size(self) -> (r: u128)
        ensures
            r == self.bytes(),
    {
        match self {
            WasmTy::I32 => 4,
            WasmTy::F64 => 8,
        }
    }

    /// The instruction that loads a value.
    pub fn load(self) -> (r: &'static str)
        ensures
            r@ == self.load_text(),
    {
        match self {
            WasmTy::I32 => "i32.load",
            WasmTy::F64 => "f64.load",
        }
    }

    /// The instruction that stores a value.
    pub fn store(self) -> (r: &'static str)
        ensures
            r@ == self.store_text(),
    {
        match self {
            WasmTy::I32 => "i32.store",
            WasmTy::F64 => "f64.store",
        }
    }
}

/// A function signature, with the leading environment pointer included.
#[derive(Debug, PartialEq, Eq, Hash)]
pub struct WasmSig {
    pub params: Vec<WasmTy>,
    pub result: WasmTy,
}

/// What a [`WasmSig`] says.
#[verifier::ext_equal]
pub struct Sig {
    pub params: Seq<WasmTy>,
    pub result: WasmTy,
}

impl WasmSig {
    pub open spec fn view(&self) -> Sig {
        Sig { params: self.params@, result: self.result }
    }

    /// Whether two signatures are the same.
    pub fn same_as(&self, other: &WasmSig) -> (r: bool)
        ensures
            r == (self@ == other@),
    {
        if self.params.len() != other.params.len() || self.result != other.result {
            return false;
        }
        let mut i: usize = 0;
        while i < self.params.len()
            invariant
                i <= self.params.len(),
                self.params@.len() == other.params@.len(),
                forall|k: int| 0 <= k < i ==> self.params@[k] == other.params@[k],
            decreases self.params.len() - i,
        {
            if self.params[i] != other.params[i] {
                return false;
            }
            i += 1;
        }
        assert(self.params@ =~= other.params@);
        true
    }
}

/// What a list of signatures says.
pub open spec fn sig_views(s: Seq<WasmSig>) -> Seq<Sig> {
    s.map_values(|x: WasmSig| x@)
}

/// The result type of a function: a throwing function returns a Result pointer
/// (`[ok: i32][value]`); otherwise its plain value type.
pub open spec fn result_ty(ret: Ty, throwing: bool) -> WasmTy {
    if throwing {
        WasmTy::I32
    } else {
        wasm_ty(ret)
    }
}

/// The result type of a function.
pub fn result_wasm_ty(ret: &Type, throwing: bool) -> (r: WasmTy)
    ensures
        r == result_ty(ret@, throwing),
{
    if throwing {
        WasmTy::I32
    } else {
        WasmTy::of(ret)
    }
}

/// The signature of a function with these parameters.
pub open spec fn fn_sig(params: Seq<Bind>, ret: Ty, throwing: bool) -> Sig {
    Sig {
        params: seq![WasmTy::I32] + params.map_values(|b: Bind| wasm_ty(b.ty)),
        result: result_ty(ret, throwing),
    }
}

/// The signature of a function type.
pub open spec fn type_sig(f: FnTy) -> Sig {
    Sig {
        params: seq![WasmTy::I32] + f.params.map_values(|t: Ty| wasm_ty(t)),
        result: result_ty(*f.ret, f.throws is Some),
    }
}

/// The signature of a function with these parameters.
pub fn sig_of_fn(params: &Vec<IrParam>, ret: &Type, throws: &Option<Type>) -> (r: WasmSig)
    ensures
        r@ == fn_sig(param_binds(params@), ret@, throws is Some),
{
    let mut all: Vec<WasmTy> = Vec::new();
    all.push(WasmTy::I32);
    let mut i: usize = 0;
    while i < params.len()
        invariant
            i <= params.len(),
            all@.len() == i + 1,
            all@[0] == WasmTy::I32,
            forall|k: int| 0 <= k < i ==> all@[k + 1] == wasm_ty((#[trigger] params@[k]).ty@),
        decreases params.len() - i,
    {
        all.push(WasmTy::of(&params[i].ty));
        i += 1;
    }
    let r = WasmSig { params: all, result: result_wasm_ty(ret, throws.is_some()) };
    proof {
        let want = fn_sig(param_binds(params@), ret@, throws is Some);
        assert forall|k: int| 0 <= k < want.params.len() implies r@.params[k]
            == want.params[k] by {
            if k > 0 {
                assert(params@[k - 1].ty@ == param_binds(params@)[k - 1].ty);
            }
        }
        assert(r@.params =~= want.params);
    }
    r
}

/// The signature of a function type.
pub fn sig_of_type(f: &FunctionType) -> (r: WasmSig)
    ensures
        r@ == type_sig(f@),
{
    let mut all: Vec<WasmTy> = Vec::new();
    all.push(WasmTy::I32);
    let mut i: usize = 0;
    while i < f.params.len()
        invariant
            i <= f.params.len(),
            all@.len() == i + 1,
            all@[0] == WasmTy::I32,
            forall|k: int| 0 <= k < i ==> all@[k + 1] == wasm_ty((#[trigger] f.params@[k])@),
        decreases f.params.len() - i,
    {
        all.push(WasmTy::of(&f.params[i]));
        i += 1;
    }
    let r = WasmSig { params: all, result: result_wasm_ty(&f.ret, f.throws.is_some()) };
    proof {
        let want = type_sig(f@);
        assert(f@.params == tys(f.params@));
        assert(want.params.len() == f.params@.len() + 1);
        assert forall|k: int| 0 <= k < want.params.len() implies r@.params[k]
            == want.params[k] by {
            if k > 0 {
                assert(f.params@[k - 1]@ == f@.params[k - 1]);
            }
        }
        assert(r@.params =~= want.params);
    }
    r
}

/// Whether a call's callee is a throwing function, so that its result is a
/// Result pointer the caller must unwrap.
pub open spec fn throwing(callee: Node) -> bool {
    match node_ty(callee) {
        Ty::Function(f) => f.throws is Some,
        _ => false,
    }
}

/// Whether a call's callee is a throwing function.
pub fn is_throwing(callee: &IrExpr) -> (r: bool)
    ensures
        r == throwing(callee@),
{
    match callee.ty() {
        Type::Function(f) => {
            let r = f.throws.is_some();
            assert(r == f@.throws is Some);
            r
        },
        _ => false,
    }
}

/// `value` rounded up to a multiple of `to`.
pub open spec fn aligned(value: nat, to: nat) -> nat
    recommends
        to > 0,
{
    ((value + to - 1) as nat / to) * to
}

/// An aligned value is the least multiple that is not below the value.
pub proof fn aligned_is_least(value: nat, to: nat)
    requires
        to > 0,
    ensures
        aligned(value, to) % to == 0,
        value <= aligned(value, to) < value + to,
{
    let q = (value + to - 1) as nat / to;
    vstd::arithmetic::mul::lemma_mul_is_commutative(q as int, to as int);
    vstd::arithmetic::div_mod::lemma_fundamental_div_mod((value + to - 1) as int, to as int);
    vstd::arithmetic::div_mod::lemma_mod_bound((value + to - 1) as int, to as int);
    vstd::arithmetic::div_mod::lemma_mod_multiples_basic(q as int, to as int);
}

/// `value` rounded up to a multiple of 4.
pub fn align4(value: u64) -> (r: u64)
    requires
        value <= 0x1_0000_0000_0000,
    ensures
        r == aligned(value as nat, 4),
{
    ((value + 3) / 4) * 4
}

/// `value` rounded up to a multiple of 8.
pub fn align8(value: u64) -> (r: u64)
    requires
        value <= 0x1_0000_0000_0000,
    ensures
        r == aligned(value as nat, 8),
{
    ((value + 7) / 8) * 8
}

/// The total size of a block with this payload: the 8-byte header included, a
/// multiple of 8.
pub open spec fn block_total(payload: nat) -> nat {
    aligned(payload + 8, 8)
}

/// The total size of a block with this payload.
pub fn total_of(payload: u128) -> (r: u128)
    requires
        payload <= 0x1_0000_0000_0000_0000_0000,
    ensures
        r == block_total(payload as nat),
{
    ((payload + 15) / 8) * 8
}

/// The size of a closure with these captures: the table index, then the
/// captures one after the other.
pub open spec fn closure_size(captures: Seq<Bind>) -> nat
    decreases captures.len(),
{
    if captures.len() == 0 {
        4
    } else {
        closure_size(captures.drop_last()) + wasm_ty(captures.last().ty).bytes()
    }
}

/// Where capture `i` stands in its closure.
pub open spec fn capture_offset(captures: Seq<Bind>, i: int) -> nat {
    closure_size(captures.take(i))
}

proof fn lemma_closure_size(captures: Seq<Bind>)
    ensures
        closure_size(captures) <= 4 + 8 * captures.len(),
    decreases captures.len(),
{
    if captures.len() > 0 {
        lemma_closure_size(captures.drop_last());
    }
}

/// The captures of a closure do not overlap: each starts where the one before
/// it ends.
pub proof fn captures_are_adjacent(captures: Seq<Bind>, i: int)
    requires
        0 <= i < captures.len(),
    ensures
        capture_offset(captures, i + 1) == capture_offset(captures, i) + wasm_ty(
            captures[i].ty,
        ).bytes(),
        capture_offset(captures, 0) == 4,
        capture_offset(captures, captures.len() as int) == closure_size(captures),
{
    assert(captures.take(i + 1).drop_last() =~= captures.take(i));
    assert(captures.take(i + 1).last() == captures[i]);
    assert(captures.take(0).len() == 0);
    assert(captures.take(captures.len() as int) =~= captures);
}

/// Where each capture stands in its closure, and the size of the closure.
pub fn capture_layout(captures: &Vec<IrCapture>) -> (r: (Vec<u128>, u128))
    ensures
        r.0@.len() == captures@.len(),
        forall|i: int|
            0 <= i < captures@.len() ==> #[trigger] r.0@[i] == capture_offset(
                capture_binds(captures@),
                i,
            ),
        r.1 == closure_size(capture_binds(captures@)),
        r.1 <= 0x100_0000_0000_0000_0000,
{
    let ghost binds = capture_binds(captures@);
    let mut out: Vec<u128> = Vec::new();
    let mut offset: u128 = 4;
    let mut i: usize = 0;
    assert(binds.take(0).len() == 0);
    while i < captures.len()
        invariant
            i <= captures.len(),
            binds == capture_binds(captures@),
            out@.len() == i,
            offset == closure_size(binds.take(i as int)),
            forall|k: int| 0 <= k < i ==> #[trigger] out@[k] == capture_offset(binds, k),
        decreases captures.len() - i,
    {
        proof {
            lemma_closure_size(binds.take(i as int));
            assert(binds.take(i + 1).drop_last() =~= binds.take(i as int));
            assert(binds.take(i + 1).last() == captures@[i as int]@);
        }
        out.push(offset);
        offset = offset + WasmTy::of(&captures[i].ty).size();
        i += 1;
    }
    proof {
        lemma_closure_size(binds);
        assert(binds.take(binds.len() as int) =~= binds);
    }
    (out, offset)
}

/// The index of the first `x` in `s`.
pub open spec fn position<T>(s: Seq<T>, x: T) -> Option<nat>
    decreases s.len(),
{
    if s.len() == 0 {
        None
    } else {
        match position(s.drop_last(), x) {
            Some(i) => Some(i),
            None => if s.last() == x {
                Some((s.len() - 1) as nat)
            } else {
                None
            },
        }
    }
}

/// The first occurrence in a prefix is the first occurrence.
pub proof fn lemma_position_found<T>(s: Seq<T>, x: T, k: int)
    requires
        0 <= k <= s.len(),
        position(s.take(k), x) is Some,
    ensures
        position(s, x) == position(s.take(k), x),
    decreases s.len() - k,
{
    if k == s.len() {
        assert(s.take(k) =~= s);
    } else {
        assert(s.take(k + 1).drop_last() =~= s.take(k));
        lemma_position_found(s, x, k + 1);
    }
}

/// The index of the first signature like `x`.
pub fn find_sig(s: &Vec<WasmSig>, x: &WasmSig) -> (r: Option<usize>)
    ensures
        match r {
            Some(i) => position(sig_views(s@), x@) == Some(i as nat) && i < s@.len(),
            None => position(sig_views(s@), x@) is None,
        },
{
    let ghost all = sig_views(s@);
    let mut i: usize = 0;
    assert(all.take(0).len() == 0);
    while i < s.len()
        invariant
            i <= s.len(),
            all == sig_views(s@),
            position(all.take(i as int), x@) is None,
        decreases s.len() - i,
    {
        proof {
            assert(all.take(i + 1).drop_last() =~= all.take(i as int));
            assert(all.take(i + 1).last() == s@[i as int]@);
        }
        if s[i].same_as(x) {
            proof {
                lemma_position_found(all, x@, i + 1);
            }
            return Some(i);
        }
        i += 1;
    }
    assert(all.take(all.len() as int) =~= all);
    None
}

/// The index of the first text like `x`.
pub fn find_text(s: &Vec<String>, x: &str) -> (r: Option<usize>)
    ensures
        match r {
            Some(i) => position(crate::strings::texts(s@), x@) == Some(i as nat) && i < s@.len(),
            None => position(crate::strings::texts(s@), x@) is None,
        },
{
    let ghost all = crate::strings::texts(s@);
    let mut i: usize = 0;
    assert(all.take(0).len() == 0);
    while i < s.len()
        invariant
            i <= s.len(),
            all == crate::strings::texts(s@),
            position(all.take(i as int), x@) is None,
        decreases s.len() - i,
    {
        proof {
            assert(all.take(i + 1).drop_last() =~= all.take(i as int));
            assert(all.take(i + 1).last() == s@[i as int]@);
        }
        if crate::strings::same(s[i].as_str(), x) {
            proof {
                lemma_position_found(all, x@, i + 1);
            }
            return Some(i);
        }
        i += 1;
    }
    assert(all.take(all.len() as int) =~= all);
    None
}

/// The index of the last `x` in `s`.
pub open spec fn last_position(s: Seq<Seq<char>>, x: Seq<char>) -> Option<nat>
    decreases s.len(),
{
    if s.len() == 0 {
        None
    } else if s.last() == x {
        Some((s.len() - 1) as nat)
    } else {
        last_position(s.drop_last(), x)
    }
}

/// The index of the last text like `x`.
pub fn find_last(s: &Vec<String>, x: &str) -> (r: Option<usize>)
    ensures
        match r {
            Some(i) => last_position(crate::strings::texts(s@), x@) == Some(i as nat) && i
                < s@.len(),
            None => last_position(crate::strings::texts(s@), x@) is None,
        },
{
    let ghost all = crate::strings::texts(s@);
    let mut i: usize = s.len();
    assert(all.take(all.len() as int) =~= all);
    while i > 0
        invariant
            i <= s.len(),
            all == crate::strings::texts(s@),
            last_position(all, x@) == last_position(all.take(i as int), x@),
        decreases i,
    {
        proof {
            assert(all.take(i as int).drop_last() =~= all.take(i - 1));
            assert(all.take(i as int).last() == s@[i - 1]@);
        }
        if crate::strings::same(s[i - 1].as_str(), x) {
            return Some(i - 1);
        }
        i -= 1;
    }
    None
}

} // verus!
