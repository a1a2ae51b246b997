//! The intrinsic-function interface.
//!
//! Intrinsics are the pure analog of platform functions: the standard library
//! declares them with `intrinsic fn`, and each backend inlines them to a native
//! instruction. The compiler holds no semantics for them beyond their signature
//! here and the per-backend name-to-instruction table.
//!
//! Unlike platform functions, an intrinsic is identified by its bare name (the
//! operation identity is module-independent) and is always pure (`uses {}`).

use vstd::prelude::*;

use crate::strings::{owned, same, texts};
use crate::types::{tys, Ty, Type};

verus! {

/// One entry of the intrinsic interface: a bare name and a signature.
///
/// `type_params` is non-empty for a generic intrinsic, whose signature is
/// written over type variables, e.g. `array_get<T>(a: Array<T>, i: Int) -> T`.
/// A call is monomorphized like a generic function before it reaches the IR.
#[derive(Debug, PartialEq, Eq)]
pub struct IntrinsicFn {
    pub name: String,
    pub type_params: Vec<String>,
    pub params: Vec<Type>,
    pub ret: Type,
}

/// What an [`IntrinsicFn`] says.
#[verifier::ext_equal]
pub struct Intrinsic {
    pub name: Seq<char>,
    pub type_params: Seq<Seq<char>>,
    pub params: Seq<Ty>,
    pub ret: Ty,
}

impl IntrinsicFn {
    pub open spec fn view(&self) -> Intrinsic {
        Intrinsic {
            name: self.name@,
            type_params: texts(self.type_params@),
            params: tys(self.params@),
            ret: self.ret@,
        }
    }
}

/// What a list of entries says.
pub open spec fn entries(s: Seq<IntrinsicFn>) -> Seq<Intrinsic> {
    s.map_values(|e: IntrinsicFn| e@)
}

/// An entry without type parameters.
pub open spec fn simple(name: Seq<char>, params: Seq<Ty>, ret: Ty) -> Intrinsic {
    Intrinsic { name, type_params: Seq::empty(), params, ret }
}

/// A binary operation on `Int`.
pub open spec fn int2(name: Seq<char>, ret: Ty) -> Intrinsic {
    simple(name, seq![Ty::Int, Ty::Int], ret)
}

/// A binary operation on `Float`.
pub open spec fn float2(name: Seq<char>, ret: Ty) -> Intrinsic {
    simple(name, seq![Ty::Float, Ty::Float], ret)
}

/// An entry over one type parameter `T`.
pub open spec fn generic1(name: Seq<char>, params: Seq<Ty>, ret: Ty) -> Intrinsic {
    Intrinsic { name, type_params: seq!["T"@], params, ret }
}

/// `Array<T>`.
pub open spec fn array_t() -> Ty {
    Ty::Array(Box::new(Ty::Var("T"@)))
}

/// The normative intrinsic interface: the primitive operations that let the
/// standard library provide the operator instances without the compiler
/// hard-coding operator semantics.
pub open spec fn interface() -> Seq<Intrinsic> {
    seq![
        int2("i32_add"@, Ty::Int),
        int2("i32_sub"@, Ty::Int),
        int2("i32_mul"@, Ty::Int),
        int2("i32_div_s"@, Ty::Int),
        int2("i32_rem_s"@, Ty::Int),
        // Bitwise and shift operations on `Int`, behind `& | ^ << >> >>>`.
        // `i32_shr_s` is arithmetic, `i32_shr_u` logical.
        int2("i32_and"@, Ty::Int),
        int2("i32_or"@, Ty::Int),
        int2("i32_xor"@, Ty::Int),
        int2("i32_shl"@, Ty::Int),
        int2("i32_shr_s"@, Ty::Int),
        int2("i32_shr_u"@, Ty::Int),
        int2("i32_eq"@, Ty::Bool),
        int2("i32_lt_s"@, Ty::Bool),
        float2("f64_add"@, Ty::Float),
        float2("f64_sub"@, Ty::Float),
        float2("f64_mul"@, Ty::Float),
        float2("f64_div"@, Ty::Float),
        float2("f64_eq"@, Ty::Bool),
        float2("f64_lt"@, Ty::Bool),
        // Square root, behind `std.float.sqrt`.
        simple("f64_sqrt"@, seq![Ty::Float], Ty::Float),
        // String concatenation, behind `++`.
        simple("string_concat"@, seq![Ty::String, Ty::String], Ty::String),
        // String equality and lexicographic order. Comparison is over bytes
        // (UTF-8), that is code point order.
        simple("string_eq"@, seq![Ty::String, Ty::String], Ty::Bool),
        simple("string_lt"@, seq![Ty::String, Ty::String], Ty::Bool),
        // String scalar operations. Indices, lengths and slice bounds are all in
        // Unicode scalar (code point) units, never bytes.
        simple("string_length"@, seq![Ty::String], Ty::Int),
        simple("string_char_at"@, seq![Ty::String, Ty::Int], Ty::Char),
        simple("string_slice"@, seq![Ty::String, Ty::Int, Ty::Int], Ty::String),
        simple("char_code"@, seq![Ty::Char], Ty::Int),
        // `char_from_code` is the inverse of `char_code`.
        simple("char_from_code"@, seq![Ty::Int], Ty::Char),
        simple("string_from_char"@, seq![Ty::Char], Ty::String),
        // Byte-sequence operations. `Bytes` shares `String`'s representation but
        // counts and indexes in bytes.
        simple("bytes_length"@, seq![Ty::Bytes], Ty::Int),
        simple("bytes_get_unchecked"@, seq![Ty::Bytes, Ty::Int], Ty::Int),
        simple("bytes_slice"@, seq![Ty::Bytes, Ty::Int, Ty::Int], Ty::Bytes),
        simple("bytes_concat"@, seq![Ty::Bytes, Ty::Bytes], Ty::Bytes),
        simple("bytes_eq"@, seq![Ty::Bytes, Ty::Bytes], Ty::Bool),
        simple("bytes_from_string"@, seq![Ty::String], Ty::Bytes),
        // The unchecked reinterpretation of `Bytes` as `String`.
        simple("bytes_as_string_unchecked"@, seq![Ty::Bytes], Ty::String),
        // Array operations. The element type is a type variable `T` that is
        // monomorphized at each call site. `array_get_unchecked` is the raw
        // accessor requiring `0 <= i < array_length(a)`.
        generic1("array_length"@, seq![array_t()], Ty::Int),
        generic1("array_get_unchecked"@, seq![array_t(), Ty::Int], Ty::Var("T"@)),
        generic1("array_push"@, seq![array_t(), Ty::Var("T"@)], array_t()),
    ]
}

/// The first entry of `s` named `name`.
pub open spec fn find_entry(s: Seq<Intrinsic>, name: Seq<char>) -> Option<Intrinsic>
    decreases s.len(),
{
    if s.len() == 0 {
        None
    } else if s[0].name == name {
        Some(s[0])
    } else {
        find_entry(s.drop_first(), name)
    }
}

fn register(out: &mut Vec<IntrinsicFn>, entry: IntrinsicFn)
    ensures
        entries(final(out)@) == entries(old(out)@).push(entry@),
{
    out.push(entry);
    assert(entries(out@) =~= entries(old(out)@).push(entry@));
}

pub(crate) fn one_type(a: Type) -> (r: Vec<Type>)
    ensures
        tys(r@) == seq![a@],
{
    let mut v: Vec<Type> = Vec::new();
    v.push(a);
    assert(tys(v@) =~= seq![a@]);
    v
}

pub(crate) fn two_types(a: Type, b: Type) -> (r: Vec<Type>)
    ensures
        tys(r@) == seq![a@, b@],
{
    let mut v: Vec<Type> = Vec::new();
    v.push(a);
    v.push(b);
    assert(tys(v@) =~= seq![a@, b@]);
    v
}

fn three_types(a: Type, b: Type, c: Type) -> (r: Vec<Type>)
    ensures
        tys(r@) == seq![a@, b@, c@],
{
    let mut v: Vec<Type> = Vec::new();
    v.push(a);
    v.push(b);
    v.push(c);
    assert(tys(v@) =~= seq![a@, b@, c@]);
    v
}

fn simple_entry(name: &str, params: Vec<Type>, ret: Type) -> (r: IntrinsicFn)
    ensures
        r@ == simple(name@, tys(params@), ret@),
{
    let r = IntrinsicFn { name: owned(name), type_params: Vec::new(), params, ret };
    assert(r@ =~= simple(name@, tys(params@), ret@));
    r
}

fn int2_entry(name: &str, ret: Type) -> (r: IntrinsicFn)
    ensures
        r@ == int2(name@, ret@),
{
    simple_entry(name, two_types(Type::Int, Type::Int), ret)
}

fn float2_entry(name: &str, ret: Type) -> (r: IntrinsicFn)
    ensures
        r@ == float2(name@, ret@),
{
    simple_entry(name, two_types(Type::Float, Type::Float), ret)
}

fn generic1_entry(name: &str, params: Vec<Type>, ret: Type) -> (r: IntrinsicFn)
    ensures
        r@ == generic1(name@, tys(params@), ret@),
{
    let mut type_params: Vec<String> = Vec::new();
    type_params.push(owned("T"));
    let r = IntrinsicFn { name: owned(name), type_params, params, ret };
    assert(r@ =~= generic1(name@, tys(params@), ret@));
    r
}

fn type_t() -> (r: Type)
    ensures
        r@ == Ty::Var("T"@),
{
    Type::Var(owned("T"))
}

fn array_of_t() -> (r: Type)
    ensures
        r@ == array_t(),
{
    let t = type_t();
    Type::Array(Box::new(t))
}

/// The normative intrinsic interface.
pub fn intrinsic_interface() -> (r: Vec<IntrinsicFn>)
    ensures
        entries(r@) == interface(),
{
    let mut out: Vec<IntrinsicFn> = Vec::new();
    assert(entries(out@) =~= Seq::<Intrinsic>::empty());
    register(&mut out, int2_entry("i32_add", Type::Int));
    register(&mut out, int2_entry("i32_sub", Type::Int));
    register(&mut out, int2_entry("i32_mul", Type::Int));
    register(&mut out, int2_entry("i32_div_s", Type::Int));
    register(&mut out, int2_entry("i32_rem_s", Type::Int));
    register(&mut out, int2_entry("i32_and", Type::Int));
    register(&mut out, int2_entry("i32_or", Type::Int));
    register(&mut out, int2_entry("i32_xor", Type::Int));
    register(&mut out, int2_entry("i32_shl", Type::Int));
    register(&mut out, int2_entry("i32_shr_s", Type::Int));
    register(&mut out, int2_entry("i32_shr_u", Type::Int));
    register(&mut out, int2_entry("i32_eq", Type::Bool));
    register(&mut out, int2_entry("i32_lt_s", Type::Bool));
    register(&mut out, float2_entry("f64_add", Type::Float));
    register(&mut out, float2_entry("f64_sub", Type::Float));
    register(&mut out, float2_entry("f64_mul", Type::Float));
    register(&mut out, float2_entry("f64_div", Type::Float));
    register(&mut out, float2_entry("f64_eq", Type::Bool));
    register(&mut out, float2_entry("f64_lt", Type::Bool));
    register(&mut out, simple_entry("f64_sqrt", one_type(Type::Float), Type::Float));
    register(&mut out, simple_entry("string_concat", two_types(Type::String, Type::String), Type::String));
    register(&mut out, simple_entry("string_eq", two_types(Type::String, Type::String), Type::Bool));
    register(&mut out, simple_entry("string_lt", two_types(Type::String, Type::String), Type::Bool));
    register(&mut out, simple_entry("string_length", one_type(Type::String), Type::Int));
    register(&mut out, simple_entry("string_char_at", two_types(Type::String, Type::Int), Type::Char));
    register(&mut out, simple_entry("string_slice", three_types(Type::String, Type::Int, Type::Int), Type::String));
    register(&mut out, simple_entry("char_code", one_type(Type::Char), Type::Int));
    register(&mut out, simple_entry("char_from_code", one_type(Type::Int), Type::Char));
    register(&mut out, simple_entry("string_from_char", one_type(Type::Char), Type::String));
    register(&mut out, simple_entry("bytes_length", one_type(Type::Bytes), Type::Int));
    register(&mut out, simple_entry("bytes_get_unchecked", two_types(Type::Bytes, Type::Int), Type::Int));
    register(&mut out, simple_entry("bytes_slice", three_types(Type::Bytes, Type::Int, Type::Int), Type::Bytes));
    register(&mut out, simple_entry("bytes_concat", two_types(Type::Bytes, Type::Bytes), Type::Bytes));
    register(&mut out, simple_entry("bytes_eq", two_types(Type::Bytes, Type::Bytes), Type::Bool));
    register(&mut out, simple_entry("bytes_from_string", one_type(Type::String), Type::Bytes));
    register(&mut out, simple_entry("bytes_as_string_unchecked", one_type(Type::Bytes), Type::String));
    register(&mut out, generic1_entry("array_length", one_type(array_of_t()), Type::Int));
    register(
        &mut out,
        generic1_entry("array_get_unchecked", two_types(array_of_t(), Type::Int), type_t()),
    );
    register(&mut out, generic1_entry("array_push", two_types(array_of_t(), type_t()), array_of_t()));
    out
}

/// Looks an intrinsic up by its bare name (e.g. `i32_add`).
pub fn lookup(name: &str) -> (r: Option<IntrinsicFn>)
    ensures
        match r {
            Some(e) => find_entry(interface(), name@) == Some(e@),
            None => find_entry(interface(), name@) is None,
        },
{
    let all = intrinsic_interface();
    let ghost s = entries(all@);
    let ghost items = all@;
    assert(s.skip(0) =~= s);
    for entry in iter: all
        invariant
            iter.seq() == items,
            s == entries(items),
            s == interface(),
            find_entry(s, name@) == find_entry(s.skip(iter.index() as int), name@),
    {
        let ghost i = iter.index() as int;
        proof {
            assert(s.skip(i)[0] == items[i]@);
            assert(s.skip(i).drop_first() =~= s.skip(i + 1));
        }
        if same(entry.name.as_str(), name) {
            return Some(entry);
        }
    }
    None
}

/// Whether `name` is part of the normative intrinsic interface.
///
/// Backends use this for their intrinsic-coverage check so the set of intrinsic
/// names has a single source of truth here rather than a hard-coded copy in
/// each backend.
pub fn is_intrinsic(name: &str) -> (r: bool)
    ensures
        r == find_entry(interface(), name@) is Some,
{
    lookup(name).is_some()
}

/// A name is an intrinsic exactly when some entry of the interface bears it,
/// and a lookup finds an entry with the name that was asked for.
pub proof fn lookup_finds_the_named_entry(s: Seq<Intrinsic>, name: Seq<char>)
    ensures
        find_entry(s, name) is Some <==> exists|i: int| 0 <= i < s.len() && (#[trigger] s[i]).name
            == name,
        find_entry(s, name) matches Some(e) ==> e.name == name && s.contains(e),
    decreases s.len(),
{
    if s.len() > 0 && s[0].name != name {
        let t = s.drop_first();
        lookup_finds_the_named_entry(t, name);
        if find_entry(t, name) is Some {
            let i = choose|i: int| 0 <= i < t.len() && (#[trigger] t[i]).name == name;
            assert(s[i + 1].name == name);
            let e = find_entry(t, name)->0;
            let k = choose|k: int| 0 <= k < t.len() && t[k] == e;
            assert(s[k + 1] == e);
        }
        if exists|i: int| 0 <= i < s.len() && (#[trigger] s[i]).name == name {
            let i = choose|i: int| 0 <= i < s.len() && (#[trigger] s[i]).name == name;
            assert(t[i - 1].name == name);
        }
    }
}

} // verus!
