//! The types of the Emela type system that the intermediate representation
//! refers to. Backends and external plugins reason about them.

use vstd::prelude::*;

use crate::strings::{copy_names, increasing, same, sorted_names, texts};

verus! {

#[derive(Debug, PartialEq, Eq, Hash)]
pub enum Type {
    Unit,
    Bool,
    Int,
    Float,
    String,
    /// A single Unicode scalar value.
    Char,
    /// A byte sequence.
    Bytes,
    Array(Box<Type>),
    Record,
    /// A named enum or record type: its declared name and its type arguments.
    Enum(String, Vec<Type>),
    /// An optional value: `Option<T>`.
    Option(Box<Type>),
    /// The empty type of `throw` and `panic`. It is assignable to any expected
    /// type; no value ever has this type.
    Never,
    Function(FunctionType),
    OpaqueFunction,
    /// A generic function's type parameter, e.g. `T`. Monomorphization
    /// substitutes it for a concrete type before lowering, so it never reaches
    /// the typed IR or a backend.
    Var(String),
}

#[derive(Debug, PartialEq, Eq, Hash)]
pub struct FunctionType {
    pub params: Vec<Type>,
    pub ret: Box<Type>,
    /// The error type the function may throw, if any. It is part of the type:
    /// two functions that differ only in `throws` are different types.
    pub throws: Option<Box<Type>>,
    pub effects: EffectRow,
}

#[derive(Debug, Clone, Copy, PartialEq, Eq, Hash, Structural)]
pub enum BinaryOp {
    Add,
    Sub,
    Mul,
    Div,
    Rem,
    /// String concatenation `++`.
    Concat,
    Eq,
    Lt,
    Ne,
    Gt,
    Le,
    Ge,
    Shl,
    /// The arithmetic right shift `>>`.
    Shr,
    /// The logical right shift `>>>`.
    UShr,
}

#[derive(Debug, PartialEq, Eq, Hash)]
pub struct EffectRow {
    pub effects: Vec<String>,
}

/// What a [`Type`] says: the same tree over mathematical sequences.
#[verifier::ext_equal]
pub enum Ty {
    Unit,
    Bool,
    Int,
    Float,
    String,
    Char,
    Bytes,
    Array(Box<Ty>),
    Record,
    Enum(Seq<char>, Seq<Ty>),
    Option(Box<Ty>),
    Never,
    Function(FnTy),
    OpaqueFunction,
    Var(Seq<char>),
}

/// What a [`FunctionType`] says.
#[verifier::ext_equal]
pub struct FnTy {
    pub params: Seq<Ty>,
    pub ret: Box<Ty>,
    pub throws: Option<Box<Ty>>,
    pub effects: Seq<Seq<char>>,
}

impl Type {
    pub open spec fn view(&self) -> Ty
        decreases self,
    {
        match self {
            Type::Unit => Ty::Unit,
            Type::Bool => Ty::Bool,
            Type::Int => Ty::Int,
            Type::Float => Ty::Float,
            Type::String => Ty::String,
            Type::Char => Ty::Char,
            Type::Bytes => Ty::Bytes,
            Type::Array(t) => Ty::Array(Box::new(t.view())),
            Type::Record => Ty::Record,
            Type::Enum(name, args) => Ty::Enum(name@, tys(args@)),
            Type::Option(t) => Ty::Option(Box::new(t.view())),
            Type::Never => Ty::Never,
            Type::Function(f) => Ty::Function(f.view()),
            Type::OpaqueFunction => Ty::OpaqueFunction,
            Type::Var(name) => Ty::Var(name@),
        }
    }
}

impl FunctionType {
    pub open spec fn view(&self) -> FnTy
        decreases self,
    {
        FnTy {
            params: tys(self.params@),
            ret: Box::new(self.ret.view()),
            throws: match self.throws {
                Some(t) => Some(Box::new(t.view())),
                None => None,
            },
            effects: self.effects@,
        }
    }
}

impl EffectRow {
    /// The effect names of the row.
    pub open spec fn view(&self) -> Seq<Seq<char>> {
        texts(self.effects@)
    }
}

/// What the types of a list say.
pub open spec fn tys(s: Seq<Type>) -> Seq<Ty>
    decreases s,
{
    Seq::new(
        s.len(),
        |i: int|
            if 0 <= i < s.len() {
                s[i].view()
            } else {
                Ty::Unit
            },
    )
}

/// What an optional type says.
pub open spec fn opt_ty(t: Option<Type>) -> Option<Ty> {
    match t {
        Some(t) => Some(t@),
        None => None,
    }
}

impl Type {
    /// A copy of the type.
    pub fn copy(&self) -> (r: Type)
        ensures
            r@ == self@,
        decreases self,
    {
        match self {
            Type::Unit => Type::Unit,
            Type::Bool => Type::Bool,
            Type::Int => Type::Int,
            Type::Float => Type::Float,
            Type::String => Type::String,
            Type::Char => Type::Char,
            Type::Bytes => Type::Bytes,
            Type::Array(t) => Type::Array(Box::new(t.copy())),
            Type::Record => Type::Record,
            Type::Enum(name, args) => {
                let a = copy_types(args);
                Type::Enum(name.clone(), a)
            },
            Type::Option(t) => Type::Option(Box::new(t.copy())),
            Type::Never => Type::Never,
            Type::Function(f) => Type::Function(f.copy()),
            Type::OpaqueFunction => Type::OpaqueFunction,
            Type::Var(name) => Type::Var(name.clone()),
        }
    }

    /// Whether two types are the same type.
    pub fn same_as(&self, other: &Type) -> (r: bool)
        ensures
            r == (self@ == other@),
        decreases self,
    {
        match (self, other) {
            (Type::Unit, Type::Unit) => true,
            (Type::Bool, Type::Bool) => true,
            (Type::Int, Type::Int) => true,
            (Type::Float, Type::Float) => true,
            (Type::String, Type::String) => true,
            (Type::Char, Type::Char) => true,
            (Type::Bytes, Type::Bytes) => true,
            (Type::Array(a), Type::Array(b)) => a.same_as(b),
            (Type::Record, Type::Record) => true,
            (Type::Enum(n, a), Type::Enum(m, b)) => same(n.as_str(), m.as_str()) && same_types(
                a,
                b,
            ),
            (Type::Option(a), Type::Option(b)) => a.same_as(b),
            (Type::Never, Type::Never) => true,
            (Type::Function(f), Type::Function(g)) => f.same_as(g),
            (Type::OpaqueFunction, Type::OpaqueFunction) => true,
            (Type::Var(n), Type::Var(m)) => same(n.as_str(), m.as_str()),
            _ => false,
        }
    }
}

impl FunctionType {
    /// A copy of the function type.
    pub fn copy(&self) -> (r: FunctionType)
        ensures
            r@ == self@,
        decreases self,
    {
        let params = copy_types(&self.params);
        let throws = match &self.throws {
            Some(t) => Some(Box::new(t.copy())),
            None => None,
        };
        FunctionType { params, ret: Box::new(self.ret.copy()), throws, effects: self.effects.copy() }
    }

    /// Whether two function types are the same type.
    pub fn same_as(&self, other: &FunctionType) -> (r: bool)
        ensures
            r == (self@ == other@),
        decreases self,
    {
        let throws_agree = match (&self.throws, &other.throws) {
            (Some(a), Some(b)) => a.same_as(b),
            (None, None) => true,
            _ => false,
        };
        throws_agree && same_types(&self.params, &other.params) && self.ret.same_as(&other.ret)
            && self.effects.same_as(&other.effects)
    }
}

/// A copy of a list of types.
pub fn copy_types(types: &Vec<Type>) -> (r: Vec<Type>)
    ensures
        tys(r@) == tys(types@),
    decreases types@,
{
    let mut out: Vec<Type> = Vec::new();
    let mut i: usize = 0;
    while i < types.len()
        invariant
            i <= types.len(),
            out@.len() == i,
            forall|j: int| 0 <= j < i ==> (#[trigger] out@[j])@ == types@[j]@,
        decreases types.len() - i,
    {
        let t = types[i].copy();
        out.push(t);
        i += 1;
    }
    assert(tys(out@) =~= tys(types@));
    out
}

/// Whether two lists hold the same types in the same order.
pub fn same_types(a: &Vec<Type>, b: &Vec<Type>) -> (r: bool)
    ensures
        r == (tys(a@) == tys(b@)),
    decreases a@,
{
    if a.len() != b.len() {
        assert(tys(a@).len() != tys(b@).len());
        return false;
    }
    let mut i: usize = 0;
    while i < a.len()
        invariant
            i <= a.len(),
            a.len() == b.len(),
            forall|j: int| 0 <= j < i ==> (#[trigger] a@[j])@ == b@[j]@,
        decreases a.len() - i,
    {
        if !a[i].same_as(&b[i]) {
            assert(tys(a@)[i as int] != tys(b@)[i as int]);
            return false;
        }
        i += 1;
    }
    assert(tys(a@) =~= tys(b@));
    true
}

/// A copy of an optional type.
pub fn copy_opt(t: &Option<Type>) -> (r: Option<Type>)
    ensures
        opt_ty(r) == opt_ty(*t),
{
    match t {
        Some(t) => Some(t.copy()),
        None => None,
    }
}

impl EffectRow {
    /// The row with no effects.
    pub fn empty() -> (r: EffectRow)
        ensures
            r@ == Seq::<Seq<char>>::empty(),
    {
        let r = EffectRow { effects: Vec::new() };
        assert(r@ =~= Seq::<Seq<char>>::empty());
        r
    }

    /// The row of `effects`, sorted and without repeats.
    pub fn sorted(effects: Vec<String>) -> (r: Self)
        ensures
            increasing(r@),
            forall|x: Seq<char>| r@.contains(x) <==> texts(effects@).contains(x),
    {
        EffectRow { effects: sorted_names(&effects) }
    }

    /// Adds the effects of `other`; the row ends sorted and without repeats.
    pub fn union(&mut self, other: &EffectRow)
        ensures
            increasing(final(self)@),
            forall|x: Seq<char>|
                final(self)@.contains(x) <==> (old(self)@.contains(x) || other@.contains(x)),
    {
        let mut all = copy_names(&self.effects);
        let mut more = copy_names(&other.effects);
        let ghost a = texts(all@);
        let ghost b = texts(more@);
        all.append(&mut more);
        assert(texts(all@) =~= a + b);
        self.effects = sorted_names(&all);
        proof {
            assert forall|x: Seq<char>| (a + b).contains(x) <==> (a.contains(x) || b.contains(x)) by {
                if a.contains(x) {
                    let k = choose|k: int| 0 <= k < a.len() && a[k] == x;
                    assert((a + b)[k] == x);
                }
                if b.contains(x) {
                    let k = choose|k: int| 0 <= k < b.len() && b[k] == x;
                    assert((a + b)[a.len() + k] == x);
                }
            }
        }
    }

    /// Whether every effect of the row is in `other`.
    pub fn is_subset_of(&self, other: &EffectRow) -> (r: bool)
        ensures
            r == within(self@, other@),
    {
        let mut i: usize = 0;
        while i < self.effects.len()
            invariant
                i <= self.effects.len(),
                forall|j: int| 0 <= j < i ==> other@.contains(#[trigger] self@[j]),
            decreases self.effects.len() - i,
        {
            if !crate::strings::contains_name(&other.effects, self.effects[i].as_str()) {
                assert(self@.contains(self@[i as int]));
                return false;
            }
            i += 1;
        }
        true
    }

    /// A copy of the row.
    pub fn copy(&self) -> (r: EffectRow)
        ensures
            r@ == self@,
    {
        EffectRow { effects: copy_names(&self.effects) }
    }

    /// Whether two rows list the same names in the same order.
    pub fn same_as(&self, other: &EffectRow) -> (r: bool)
        ensures
            r == (self@ == other@),
    {
        if self.effects.len() != other.effects.len() {
            assert(self@.len() != other@.len());
            return false;
        }
        let mut i: usize = 0;
        while i < self.effects.len()
            invariant
                i <= self.effects.len(),
                self.effects.len() == other.effects.len(),
                forall|j: int| 0 <= j < i ==> self@[j] == other@[j],
            decreases self.effects.len() - i,
        {
            if !same(self.effects[i].as_str(), other.effects[i].as_str()) {
                assert(self@[i as int] != other@[i as int]);
                return false;
            }
            i += 1;
        }
        assert(self@ =~= other@);
        true
    }
}

impl Default for EffectRow {
    fn default() -> (r: EffectRow)
        ensures
            r@ == Seq::<Seq<char>>::empty(),
    {
        EffectRow::empty()
    }
}

impl Clone for Type {
    fn clone(&self) -> (r: Type)
        ensures
            r@ == self@,
    {
        self.copy()
    }
}

impl Clone for FunctionType {
    fn clone(&self) -> (r: FunctionType)
        ensures
            r@ == self@,
    {
        self.copy()
    }
}

impl Clone for EffectRow {
    fn clone(&self) -> (r: EffectRow)
        ensures
            r@ == self@,
    {
        self.copy()
    }
}

/// A sorted row is determined by the effects it lists: sorting two lists with
/// the same members gives the same row.
pub proof fn sorted_row_is_canonical(a: EffectRow, b: EffectRow)
    requires
        increasing(a@),
        increasing(b@),
        forall|x: Seq<char>| a@.contains(x) <==> b@.contains(x),
    ensures
        a@ == b@,
{
    crate::strings::increasing_lists_are_unique(a@, b@);
}

/// Whether every effect of a row is in another.
pub open spec fn within(a: Seq<Seq<char>>, b: Seq<Seq<char>>) -> bool {
    forall|x: Seq<char>| a.contains(x) ==> b.contains(x)
}

/// Every row is within itself, and what is within a row that is within a third is
/// within that one.
pub proof fn rows_are_ordered(a: EffectRow, b: EffectRow, c: EffectRow)
    ensures
        within(a@, a@),
        within(a@, b@) && within(b@, c@) ==> within(a@, c@),
        increasing(a@) && increasing(b@) && within(a@, b@) && within(b@, a@) ==> a@ == b@,
{
    if increasing(a@) && increasing(b@) && within(a@, b@) && within(b@, a@) {
        sorted_row_is_canonical(a, b);
    }
}

/// A union is the least row that both rows are within.
pub proof fn unions_are_least(a: EffectRow, b: EffectRow, union: EffectRow, c: EffectRow)
    requires
        forall|x: Seq<char>| union@.contains(x) <==> (a@.contains(x) || b@.contains(x)),
    ensures
        within(a@, union@),
        within(b@, union@),
        within(a@, c@) && within(b@, c@) ==> within(union@, c@),
{
}

/// Whether values of a type are heap pointers managed by reference counting.
pub open spec fn heap(ty: Ty) -> bool {
    match ty {
        Ty::String | Ty::Bytes | Ty::Array(_) | Ty::Record | Ty::Enum(_, _) | Ty::Function(_)
        | Ty::OpaqueFunction => true,
        _ => false,
    }
}

/// Whether values of `ty` are heap pointers managed by reference counting.
pub fn is_heap(ty: &Type) -> (r: bool)
    ensures
        r == heap(ty@),
{
    matches!(
        ty,
        Type::String
            | Type::Bytes
            | Type::Array(_)
            | Type::Record
            | Type::Enum(_, _)
            | Type::Function(_)
            | Type::OpaqueFunction
    )
}

} // verus!
