//! Substitution of type parameters, and the names of specializations.

use vstd::prelude::*;

use crate::ir::Bind;
use crate::strings::{owned, same, texts};
use crate::types::{tys, FnTy, FunctionType, Ty, Type};

verus! {

/// Names bound to types. Where a name is bound twice, the last binding counts.
#[derive(Debug)]
pub struct Bindings {
    pub binds: Vec<(String, Type)>,
}

/// What a list of bindings says.
pub open spec fn bind_views(s: Seq<(String, Type)>) -> Seq<Bind> {
    s.map_values(|b: (String, Type)| Bind { name: b.0@, ty: b.1@ })
}

/// What a name is bound to.
pub open spec fn lookup(s: Seq<Bind>, name: Seq<char>) -> Option<Ty>
    decreases s.len(),
{
    if s.len() == 0 {
        None
    } else if s.last().name == name {
        Some(s.last().ty)
    } else {
        lookup(s.drop_last(), name)
    }
}

impl Bindings {
    pub open spec fn view(&self) -> Seq<Bind> {
        bind_views(self.binds@)
    }

    /// No bindings.
    pub fn none() -> (r: Bindings)
        ensures
            r@ == Seq::<Bind>::empty(),
    {
        let r = Bindings { binds: Vec::new() };
        assert(r@ =~= Seq::<Bind>::empty());
        r
    }

    /// What a name is bound to.
    pub fn get(&self, name: &str) -> (r: Option<&Type>)
        ensures
            match r {
                Some(t) => lookup(self@, name@) == Some(t@),
                None => lookup(self@, name@) is None,
            },
    {
        let ghost all = self@;
        let mut i: usize = self.binds.len();
        assert(all.take(all.len() as int) =~= all);
        while i > 0
            invariant
                i <= self.binds.len(),
                all == self@,
                lookup(all, name@) == lookup(all.take(i as int), name@),
            decreases i,
        {
            proof {
                assert(all.take(i as int).drop_last() =~= all.take(i - 1));
                assert(all.take(i as int).last() == (Bind {
                    name: self.binds@[i - 1].0@,
                    ty: self.binds@[i - 1].1@,
                }));
            }
            if same(self.binds[i - 1].0.as_str(), name) {
                return Some(&self.binds[i - 1].1);
            }
            i -= 1;
        }
        None
    }

    /// Binds one more name.
    pub fn put(&mut self, name: &str, ty: Type)
        ensures
            final(self)@ == old(self)@.push(Bind { name: name@, ty: ty@ }),
    {
        self.binds.push((owned(name), ty));
        assert(self@ =~= old(self)@.push(Bind { name: name@, ty: ty@ }));
    }

    /// A copy of the bindings.
    pub fn copy(&self) -> (r: Bindings)
        ensures
            r@ == self@,
    {
        let mut binds: Vec<(String, Type)> = Vec::new();
        let mut i: usize = 0;
        while i < self.binds.len()
            invariant
                i <= self.binds.len(),
                binds@.len() == i,
                forall|k: int|
                    0 <= k < i ==> (#[trigger] binds@[k]).0@ == self.binds@[k].0@ && binds@[k].1@
                        == self.binds@[k].1@,
            decreases self.binds.len() - i,
        {
            binds.push((self.binds[i].0.clone(), self.binds[i].1.copy()));
            i += 1;
        }
        let r = Bindings { binds };
        assert(r@ =~= self@);
        r
    }

    /// The bindings with one more name.
    pub fn with(&self, name: &str, ty: Type) -> (r: Bindings)
        ensures
            r@ == self@.push(Bind { name: name@, ty: ty@ }),
    {
        let mut r = self.copy();
        r.put(name, ty);
        r
    }
}

/// A type with its type parameters replaced.
pub open spec fn subst_ty(t: Ty, s: Seq<Bind>) -> Ty
    decreases t,
{
    match t {
        Ty::Var(name) => match lookup(s, name) {
            Some(bound) => bound,
            None => t,
        },
        Ty::Array(inner) => Ty::Array(Box::new(subst_ty(*inner, s))),
        Ty::Option(inner) => Ty::Option(Box::new(subst_ty(*inner, s))),
        Ty::Enum(name, args) => Ty::Enum(name, subst_tys(args, s)),
        Ty::Function(f) => Ty::Function(
            FnTy {
                params: subst_tys(f.params, s),
                ret: Box::new(subst_ty(*f.ret, s)),
                throws: match f.throws {
                    Some(t) => Some(Box::new(subst_ty(*t, s))),
                    None => None,
                },
                effects: f.effects,
            },
        ),
        _ => t,
    }
}

/// Types with their type parameters replaced.
pub open spec fn subst_tys(ts: Seq<Ty>, s: Seq<Bind>) -> Seq<Ty>
    decreases ts,
{
    Seq::new(
        ts.len(),
        |i: int|
            if 0 <= i < ts.len() {
                subst_ty(ts[i], s)
            } else {
                Ty::Unit
            },
    )
}

/// A type with its type parameters replaced.
pub fn subst_type(t: &Type, s: &Bindings) -> (r: Type)
    ensures
        r@ == subst_ty(t@, s@),
    decreases t,
{
    match t {
        Type::Var(name) => match s.get(name.as_str()) {
            Some(bound) => bound.copy(),
            None => t.copy(),
        },
        Type::Array(inner) => Type::Array(Box::new(subst_type(inner, s))),
        Type::Option(inner) => Type::Option(Box::new(subst_type(inner, s))),
        Type::Enum(name, args) => {
            let replaced = subst_types(args, s);
            Type::Enum(name.clone(), replaced)
        },
        Type::Function(f) => {
            let replaced = subst_function(f, s);
            Type::Function(replaced)
        },
        _ => t.copy(),
    }
}

fn subst_function(f: &FunctionType, s: &Bindings) -> (r: FunctionType)
    ensures
        Ty::Function(r@) == subst_ty(Ty::Function(f@), s@),
    decreases f,
{
    let params = subst_types(&f.params, s);
    let ret = Box::new(subst_type(&f.ret, s));
    let throws = match &f.throws {
        Some(t) => Some(Box::new(subst_type(t, s))),
        None => None,
    };
    FunctionType { params, ret, throws, effects: f.effects.copy() }
}

/// Types with their type parameters replaced.
pub fn subst_types(ts: &Vec<Type>, s: &Bindings) -> (r: Vec<Type>)
    ensures
        tys(r@) == subst_tys(tys(ts@), s@),
    decreases ts@,
{
    let ghost all = tys(ts@);
    let mut out: Vec<Type> = Vec::new();
    let mut i: usize = 0;
    assert(all.len() == ts@.len());
    while i < ts.len()
        invariant
            i <= ts.len(),
            all == tys(ts@),
            all.len() == ts@.len(),
            out@.len() == i,
            forall|k: int| 0 <= k < i ==> (#[trigger] out@[k])@ == subst_ty(all[k], s@),
        decreases ts.len() - i,
    {
        assert(all[i as int] == ts@[i as int]@);
        let t = subst_type(&ts[i], s);
        out.push(t);
        i += 1;
    }
    assert(tys(out@) =~= subst_tys(all, s@));
    out
}

/// Binds type parameters by matching a declared type (which may contain them)
/// against an actual one. A concrete binding is preferred over `Never`.
pub open spec fn infer(s: Seq<Bind>, declared: Ty, actual: Ty) -> Seq<Bind>
    decreases declared, 0nat,
{
    match (declared, actual) {
        (Ty::Var(name), _) => match lookup(s, name) {
            Some(bound) => if bound is Never {
                s.push(Bind { name, ty: actual })
            } else {
                s
            },
            None => s.push(Bind { name, ty: actual }),
        },
        (Ty::Array(d), Ty::Array(a)) => infer(s, *d, *a),
        (Ty::Option(d), Ty::Option(a)) => infer(s, *d, *a),
        (Ty::Enum(dn, dargs), Ty::Enum(an, aargs)) => if dn == an && dargs.len() == aargs.len() {
            infer_first(s, dargs, aargs, dargs.len())
        } else {
            s
        },
        (Ty::Function(d), Ty::Function(a)) => if d.params.len() == a.params.len() {
            infer(infer_first(s, d.params, a.params, d.params.len()), *d.ret, *a.ret)
        } else {
            s
        },
        _ => s,
    }
}

/// [`infer`] over the first `n` pairs of two lists.
pub open spec fn infer_first(s: Seq<Bind>, declared: Seq<Ty>, actual: Seq<Ty>, n: nat) -> Seq<Bind>
    decreases declared, n,
{
    if n == 0 || n > declared.len() || n > actual.len() {
        s
    } else {
        infer(
            infer_first(s, declared, actual, (n - 1) as nat),
            declared[n - 1],
            actual[n - 1],
        )
    }
}

/// The length of the shorter of two lists.
pub open spec fn shorter(a: nat, b: nat) -> nat {
    if a <= b {
        a
    } else {
        b
    }
}

/// [`infer`] over two lists, as far as both go.
pub open spec fn infer_zip(s: Seq<Bind>, declared: Seq<Ty>, actual: Seq<Ty>) -> Seq<Bind> {
    infer_first(s, declared, actual, shorter(declared.len(), actual.len()))
}

/// Binds type parameters by matching a declared type against an actual one.
pub fn infer_subst(s: &mut Bindings, declared: &Type, actual: &Type)
    ensures
        final(s)@ == infer(old(s)@, declared@, actual@),
    decreases declared, 1nat,
{
    match declared {
        Type::Var(name) => {
            let free = match s.get(name.as_str()) {
                Some(bound) => matches!(bound, Type::Never),
                None => true,
            };
            if free {
                s.put(name.as_str(), actual.copy());
            }
        },
        Type::Array(d) => {
            if let Type::Array(a) = actual {
                infer_subst(s, d, a);
            }
        },
        Type::Option(d) => {
            if let Type::Option(a) = actual {
                infer_subst(s, d, a);
            }
        },
        Type::Enum(dn, dargs) => {
            if let Type::Enum(an, aargs) = actual {
                proof {
                    assert(tys(dargs@).len() == dargs@.len());
                    assert(tys(aargs@).len() == aargs@.len());
                }
                if same(dn.as_str(), an.as_str()) && dargs.len() == aargs.len() {
                    infer_types(s, dargs, aargs);
                }
            }
        },
        Type::Function(d) => {
            if let Type::Function(a) = actual {
                infer_function(s, d, a);
            }
        },
        _ => {},
    }
}

fn infer_function(s: &mut Bindings, d: &FunctionType, a: &FunctionType)
    ensures
        final(s)@ == infer(old(s)@, Ty::Function(d@), Ty::Function(a@)),
    decreases d, 0nat,
{
    proof {
        assert(d@.params == tys(d.params@) && a@.params == tys(a.params@));
        assert(tys(d.params@).len() == d.params@.len());
        assert(tys(a.params@).len() == a.params@.len());
    }
    if d.params.len() == a.params.len() {
        infer_types(s, &d.params, &a.params);
        infer_subst(s, &d.ret, &a.ret);
    }
}

/// Binds type parameters by matching two lists of types, as far as both go.
pub fn infer_types(s: &mut Bindings, declared: &Vec<Type>, actual: &Vec<Type>)
    ensures
        final(s)@ == infer_zip(old(s)@, tys(declared@), tys(actual@)),
    decreases declared@, 0nat,
{
    let ghost ds = tys(declared@);
    let ghost acts = tys(actual@);
    let mut i: usize = 0;
    assert(ds.len() == declared@.len() && acts.len() == actual@.len());
    while i < declared.len() && i < actual.len()
        invariant
            i <= declared.len(),
            i <= actual.len(),
            ds == tys(declared@),
            acts == tys(actual@),
            ds.len() == declared@.len(),
            acts.len() == actual@.len(),
            s@ == infer_first(old(s)@, ds, acts, i as nat),
        decreases declared.len() - i,
    {
        assert(ds[i as int] == declared@[i as int]@ && acts[i as int] == actual@[i as int]@);
        infer_subst(s, &declared[i], &actual[i]);
        i += 1;
    }
}

/// An identifier-safe encoding of a concrete type.
pub open spec fn mangle_ty(out: Seq<char>, t: Ty) -> Seq<char>
    decreases t, 1nat,
{
    match t {
        Ty::Unit => out + "Unit"@,
        Ty::Bool => out + "Bool"@,
        Ty::Int => out + "Int"@,
        Ty::Float => out + "Float"@,
        Ty::String => out + "String"@,
        Ty::Char => out + "Char"@,
        Ty::Bytes => out + "Bytes"@,
        Ty::Array(element) => mangle_ty(out + "Array_"@, *element) + "_"@,
        Ty::Option(element) => mangle_ty(out + "Option_"@, *element) + "_"@,
        Ty::Record => out + "Record"@,
        Ty::Enum(name, args) => if args.len() == 0 {
            out + name
        } else {
            mangle_tys(out + name + "_"@, args) + "_"@
        },
        Ty::Never => out + "Never"@,
        Ty::Function(f) => mangle_ty(mangle_tys(out + "Fn_"@, f.params) + "_to_"@, *f.ret) + "_"@,
        Ty::OpaqueFunction => out + "Fn"@,
        // A type variable cannot survive substitution at a concrete call site.
        Ty::Var(name) => out + name,
    }
}

/// Encodings, separated by underscores.
pub open spec fn mangle_tys(out: Seq<char>, s: Seq<Ty>) -> Seq<char>
    decreases s, 0nat,
{
    if s.len() == 0 {
        out
    } else {
        let before = mangle_tys(out, s.drop_last());
        mangle_ty(
            if s.len() == 1 {
                before
            } else {
                before + "_"@
            },
            s.last(),
        )
    }
}

/// Appends an identifier-safe encoding of a concrete type.
pub fn push_mangled(out: &mut String, t: &Type)
    ensures
        final(out)@ == mangle_ty(old(out)@, t@),
    decreases t, 1nat,
{
    match t {
        Type::Unit => out.push_str("Unit"),
        Type::Bool => out.push_str("Bool"),
        Type::Int => out.push_str("Int"),
        Type::Float => out.push_str("Float"),
        Type::String => out.push_str("String"),
        Type::Char => out.push_str("Char"),
        Type::Bytes => out.push_str("Bytes"),
        Type::Array(element) => {
            out.push_str("Array_");
            push_mangled(out, element);
            out.push_str("_");
        },
        Type::Option(element) => {
            out.push_str("Option_");
            push_mangled(out, element);
            out.push_str("_");
        },
        Type::Record => out.push_str("Record"),
        Type::Enum(name, args) => {
            assert(tys(args@).len() == args@.len());
            out.push_str(name.as_str());
            if args.len() > 0 {
                out.push_str("_");
                push_mangled_list(out, args);
                out.push_str("_");
            }
        },
        Type::Never => out.push_str("Never"),
        Type::Function(f) => push_mangled_function(out, f),
        Type::OpaqueFunction => out.push_str("Fn"),
        Type::Var(name) => out.push_str(name.as_str()),
    }
}

fn push_mangled_function(out: &mut String, f: &FunctionType)
    ensures
        final(out)@ == mangle_ty(old(out)@, Ty::Function(f@)),
    decreases f, 0nat,
{
    out.push_str("Fn_");
    push_mangled_list(out, &f.params);
    out.push_str("_to_");
    push_mangled(out, &f.ret);
    out.push_str("_");
}

fn push_mangled_list(out: &mut String, s: &Vec<Type>)
    ensures
        final(out)@ == mangle_tys(old(out)@, tys(s@)),
    decreases s@, 0nat,
{
    let ghost all = tys(s@);
    let mut i: usize = 0;
    assert(all.take(0).len() == 0);
    while i < s.len()
        invariant
            i <= s.len(),
            all == tys(s@),
            out@ == mangle_tys(old(out)@, all.take(i as int)),
        decreases s.len() - i,
    {
        proof {
            assert(all.take(i + 1).drop_last() =~= all.take(i as int));
            assert(all.take(i + 1).last() == s@[i as int]@);
        }
        if i > 0 {
            out.push_str("_");
        }
        push_mangled(out, &s[i]);
        i += 1;
    }
    assert(all.take(all.len() as int) =~= all);
}

/// The segments of a path, each followed by two underscores.
pub open spec fn path_prefix(out: Seq<char>, s: Seq<Seq<char>>) -> Seq<char>
    decreases s.len(),
{
    if s.len() == 0 {
        out
    } else {
        path_prefix(out, s.drop_last()) + s.last() + "__"@
    }
}

/// Appends the segments of a path, each followed by two underscores.
pub fn push_path_prefix(out: &mut String, s: &Vec<String>)
    ensures
        final(out)@ == path_prefix(old(out)@, texts(s@)),
{
    let ghost all = texts(s@);
    let mut i: usize = 0;
    assert(all.take(0).len() == 0);
    while i < s.len()
        invariant
            i <= s.len(),
            all == texts(s@),
            out@ == path_prefix(old(out)@, all.take(i as int)),
        decreases s.len() - i,
    {
        out.push_str(s[i].as_str());
        out.push_str("__");
        proof {
            assert(all.take(i + 1).drop_last() =~= all.take(i as int));
            assert(all.take(i + 1).last() == s@[i as int]@);
        }
        i += 1;
    }
    assert(all.take(all.len() as int) =~= all);
}

/// The type arguments of a specialization, each after two underscores.
pub open spec fn mangle_args(out: Seq<char>, params: Seq<Seq<char>>, s: Seq<Bind>) -> Seq<char>
    decreases params.len(),
{
    if params.len() == 0 {
        out
    } else {
        mangle_ty(
            mangle_args(out, params.drop_last(), s) + "__"@,
            match lookup(s, params.last()) {
                Some(t) => t,
                None => Ty::Unit,
            },
        )
    }
}

/// The name of a specialization: the module path, the name and the type
/// arguments in declaration order, e.g. `identity__Int` or
/// `std__list__map__Int__Int`. Same-named generic functions of different modules
/// get distinct specializations.
pub open spec fn mangled_name(module: Seq<Seq<char>>, name: Seq<char>, params: Seq<Seq<char>>, s: Seq<Bind>) -> Seq<char> {
    mangle_args(path_prefix(Seq::empty(), module) + name, params, s)
}

/// The name of a specialization.
pub fn mangle(module: &Vec<String>, name: &str, params: &Vec<String>, s: &Bindings) -> (r: String)
    ensures
        r@ == mangled_name(texts(module@), name@, texts(params@), s@),
{
    let ghost all = texts(params@);
    let mut out = String::new();
    assert(out@ =~= Seq::<char>::empty());
    push_path_prefix(&mut out, module);
    out.push_str(name);
    let ghost head = out@;
    let mut i: usize = 0;
    assert(all.take(0).len() == 0);
    while i < params.len()
        invariant
            i <= params.len(),
            all == texts(params@),
            out@ == mangle_args(head, all.take(i as int), s@),
        decreases params.len() - i,
    {
        proof {
            assert(all.take(i + 1).drop_last() =~= all.take(i as int));
            assert(all.take(i + 1).last() == params@[i as int]@);
        }
        out.push_str("__");
        match s.get(params[i].as_str()) {
            Some(t) => push_mangled(&mut out, t),
            None => push_mangled(&mut out, &Type::Unit),
        }
        i += 1;
    }
    assert(all.take(all.len() as int) =~= all);
    out
}

/// The name of a specialized impl method, e.g. `Add__Int__add`.
pub open spec fn impl_method_name(trait_name: Seq<char>, self_ty: Ty, method: Seq<char>) -> Seq<char> {
    mangle_ty(trait_name + "__"@, self_ty) + "__"@ + method
}

/// The name of a specialized impl method.
pub fn mangle_impl_method(trait_name: &str, self_ty: &Type, method: &str) -> (r: String)
    ensures
        r@ == impl_method_name(trait_name@, self_ty@, method@),
{
    let mut out = owned(trait_name);
    out.push_str("__");
    push_mangled(&mut out, self_ty);
    out.push_str("__");
    out.push_str(method);
    out
}

/// The head of a type, by which its `impl` blocks are found. A type parameter
/// and the empty type have none.
pub open spec fn type_head(t: Ty) -> Option<Seq<char>> {
    match t {
        Ty::Unit => Some("Unit"@),
        Ty::Bool => Some("Bool"@),
        Ty::Int => Some("Int"@),
        Ty::Float => Some("Float"@),
        Ty::String => Some("String"@),
        Ty::Char => Some("Char"@),
        Ty::Bytes => Some("Bytes"@),
        Ty::Array(_) => Some("Array"@),
        Ty::Record => Some("Record"@),
        Ty::Enum(name, _) => Some(name),
        Ty::Option(_) => Some("Option"@),
        Ty::Function(_) => Some("Fn"@),
        Ty::OpaqueFunction => Some("Fn"@),
        Ty::Never => None,
        Ty::Var(_) => None,
    }
}

/// The head of a type.
pub fn type_head_key(t: &Type) -> (r: Option<String>)
    ensures
        match r {
            Some(key) => type_head(t@) == Some(key@),
            None => type_head(t@) is None,
        },
{
    match t {
        Type::Unit => Some(owned("Unit")),
        Type::Bool => Some(owned("Bool")),
        Type::Int => Some(owned("Int")),
        Type::Float => Some(owned("Float")),
        Type::String => Some(owned("String")),
        Type::Char => Some(owned("Char")),
        Type::Bytes => Some(owned("Bytes")),
        Type::Array(_) => Some(owned("Array")),
        Type::Record => Some(owned("Record")),
        Type::Enum(name, _) => Some(name.clone()),
        Type::Option(_) => Some(owned("Option")),
        Type::Function(_) => Some(owned("Fn")),
        Type::OpaqueFunction => Some(owned("Fn")),
        Type::Never => None,
        Type::Var(_) => None,
    }
}

/// Whether a type mentions no type parameter.
pub open spec fn concrete(t: Ty) -> bool
    decreases t,
{
    match t {
        Ty::Var(_) => false,
        Ty::Array(inner) => concrete(*inner),
        Ty::Option(inner) => concrete(*inner),
        Ty::Enum(_, args) => concrete_all(args),
        Ty::Function(f) => concrete_all(f.params) && concrete(*f.ret) && (match f.throws {
            Some(t) => concrete(*t),
            None => true,
        }),
        _ => true,
    }
}

/// Whether types mention no type parameter.
pub open spec fn concrete_all(s: Seq<Ty>) -> bool
    decreases s,
{
    forall|i: int| 0 <= i < s.len() ==> concrete(#[trigger] s[i])
}

/// Whether every type parameter that a type mentions is bound to a concrete type
/// other than `Never`.
pub open spec fn closed(t: Ty, s: Seq<Bind>) -> bool
    decreases t,
{
    match t {
        Ty::Var(name) => lookup(s, name) matches Some(bound) && concrete(bound) && !(bound is Never),
        Ty::Array(inner) => closed(*inner, s),
        Ty::Option(inner) => closed(*inner, s),
        Ty::Enum(_, args) => closed_all(args, s),
        Ty::Function(f) => closed_all(f.params, s) && closed(*f.ret, s) && (match f.throws {
            Some(t) => closed(*t, s),
            None => true,
        }),
        _ => true,
    }
}

/// [`closed`] of every type of a list.
pub open spec fn closed_all(ts: Seq<Ty>, s: Seq<Bind>) -> bool
    decreases ts,
{
    forall|i: int| 0 <= i < ts.len() ==> closed(#[trigger] ts[i], s)
}

/// A specialized type is fully concrete.
pub proof fn specialized_types_are_concrete(t: Ty, s: Seq<Bind>)
    requires
        closed(t, s),
    ensures
        concrete(subst_ty(t, s)),
    decreases t,
{
    match t {
        Ty::Array(inner) => specialized_types_are_concrete(*inner, s),
        Ty::Option(inner) => specialized_types_are_concrete(*inner, s),
        Ty::Enum(_, args) => specialized_lists_are_concrete(args, s),
        Ty::Function(f) => {
            specialized_lists_are_concrete(f.params, s);
            specialized_types_are_concrete(*f.ret, s);
            if let Some(t) = f.throws {
                specialized_types_are_concrete(*t, s);
            }
        },
        _ => {},
    }
}

proof fn specialized_lists_are_concrete(ts: Seq<Ty>, s: Seq<Bind>)
    requires
        closed_all(ts, s),
    ensures
        concrete_all(subst_tys(ts, s)),
    decreases ts,
{
    assert forall|i: int| 0 <= i < ts.len() implies concrete(#[trigger] subst_tys(ts, s)[i]) by {
        assert(decreases_to!(ts => ts[i]));
        assert(closed(ts[i], s));
        specialized_types_are_concrete(ts[i], s);
    }
}

/// A concrete type is its own specialization.
pub proof fn concrete_types_stay(t: Ty, s: Seq<Bind>)
    requires
        concrete(t),
    ensures
        subst_ty(t, s) == t,
    decreases t,
{
    match t {
        Ty::Array(inner) => concrete_types_stay(*inner, s),
        Ty::Option(inner) => concrete_types_stay(*inner, s),
        Ty::Enum(_, args) => concrete_lists_stay(args, s),
        Ty::Function(f) => {
            concrete_lists_stay(f.params, s);
            concrete_types_stay(*f.ret, s);
            if let Some(t) = f.throws {
                concrete_types_stay(*t, s);
            }
        },
        _ => {},
    }
}

proof fn concrete_lists_stay(ts: Seq<Ty>, s: Seq<Bind>)
    requires
        concrete_all(ts),
    ensures
        subst_tys(ts, s) == ts,
    decreases ts,
{
    assert forall|i: int| 0 <= i < ts.len() implies #[trigger] subst_tys(ts, s)[i] == ts[i] by {
        assert(decreases_to!(ts => ts[i]));
        assert(concrete(ts[i]));
        concrete_types_stay(ts[i], s);
    }
    assert(subst_tys(ts, s) =~= ts);
}

/// Whether bindings say nothing that others do not say.
pub open spec fn agrees(s: Seq<Bind>, with: Seq<Bind>) -> bool {
    forall|name: Seq<char>|
        (#[trigger] lookup(s, name)) matches Some(t) ==> lookup(with, name) == Some(t)
}

/// Whether every type parameter that a type mentions is bound alike in two lists.
/// The error type of a function is not looked into, since nothing is inferred
/// from it.
pub open spec fn known(t: Ty, s: Seq<Bind>, with: Seq<Bind>) -> bool
    decreases t,
{
    match t {
        Ty::Var(name) => lookup(s, name) is Some && lookup(s, name) == lookup(with, name),
        Ty::Array(inner) => known(*inner, s, with),
        Ty::Option(inner) => known(*inner, s, with),
        Ty::Enum(_, args) => known_all(args, s, with),
        Ty::Function(f) => known_all(f.params, s, with) && known(*f.ret, s, with),
        _ => true,
    }
}

/// [`known`] of every type of a list.
pub open spec fn known_all(ts: Seq<Ty>, s: Seq<Bind>, with: Seq<Bind>) -> bool
    decreases ts,
{
    forall|i: int| 0 <= i < ts.len() ==> known(#[trigger] ts[i], s, with)
}

/// Whether what is bound in `s` is bound alike in `more`.
pub open spec fn extends(s: Seq<Bind>, more: Seq<Bind>) -> bool {
    forall|name: Seq<char>|
        (#[trigger] lookup(s, name)) is Some ==> lookup(more, name) == lookup(s, name)
}

proof fn lemma_known_stays(t: Ty, s: Seq<Bind>, more: Seq<Bind>, with: Seq<Bind>)
    requires
        known(t, s, with),
        extends(s, more),
    ensures
        known(t, more, with),
    decreases t,
{
    match t {
        Ty::Array(inner) => lemma_known_stays(*inner, s, more, with),
        Ty::Option(inner) => lemma_known_stays(*inner, s, more, with),
        Ty::Enum(_, args) => lemma_known_all_stays(args, s, more, with),
        Ty::Function(f) => {
            lemma_known_all_stays(f.params, s, more, with);
            lemma_known_stays(*f.ret, s, more, with);
        },
        _ => {},
    }
}

proof fn lemma_known_all_stays(ts: Seq<Ty>, s: Seq<Bind>, more: Seq<Bind>, with: Seq<Bind>)
    requires
        known_all(ts, s, with),
        extends(s, more),
    ensures
        known_all(ts, more, with),
    decreases ts,
{
    assert forall|i: int| 0 <= i < ts.len() implies known(#[trigger] ts[i], more, with) by {
        assert(decreases_to!(ts => ts[i]));
        lemma_known_stays(ts[i], s, more, with);
    }
}

proof fn lemma_push(s: Seq<Bind>, b: Bind, name: Seq<char>)
    ensures
        lookup(s.push(b), name) == if b.name == name {
            Some(b.ty)
        } else {
            lookup(s, name)
        },
{
    assert(s.push(b).drop_last() =~= s);
}

/// Matching a declared type against one of its specializations recovers the type
/// arguments that it was specialized with.
pub proof fn inference_recovers_type_arguments(s: Seq<Bind>, declared: Ty, with: Seq<Bind>)
    requires
        agrees(s, with),
        closed(declared, with),
    ensures
        ({
            let r = infer(s, declared, subst_ty(declared, with));
            agrees(r, with) && known(declared, r, with) && extends(s, r)
        }),
    decreases declared, 0nat,
{
    let actual = subst_ty(declared, with);
    match declared {
        Ty::Var(name) => {
            let b = Bind { name, ty: actual };
            assert forall|n: Seq<char>| #[trigger] lookup(s.push(b), n) == if name == n {
                Some(actual)
            } else {
                lookup(s, n)
            } by {
                lemma_push(s, b, n);
            }
            assert(agrees(infer(s, declared, actual), with));
            assert(known(declared, infer(s, declared, actual), with));
            assert(extends(s, infer(s, declared, actual)));
        },
        Ty::Array(inner) => {
            inference_recovers_type_arguments(s, *inner, with);
            assert(known(declared, infer(s, declared, actual), with));
        },
        Ty::Option(inner) => inference_recovers_type_arguments(s, *inner, with),
        Ty::Enum(name, args) => {
            lemma_infer_first(s, args, with, args.len());
            assert(actual == Ty::Enum(name, subst_tys(args, with)));
            assert(known_all(args, infer_first(s, args, subst_tys(args, with), args.len()), with));
            assert(known(declared, infer(s, declared, actual), with));
        },
        Ty::Function(f) => {
            lemma_infer_first(s, f.params, with, f.params.len());
            let t = infer_first(s, f.params, subst_tys(f.params, with), f.params.len());
            inference_recovers_type_arguments(t, *f.ret, with);
            let r = infer(t, *f.ret, subst_ty(*f.ret, with));
            lemma_known_all_stays(f.params, t, r, with);
            assert(infer(s, declared, actual) == r);
        },
        _ => {},
    }
}

proof fn lemma_infer_first(s: Seq<Bind>, ts: Seq<Ty>, with: Seq<Bind>, n: nat)
    requires
        agrees(s, with),
        closed_all(ts, with),
        n <= ts.len(),
    ensures
        ({
            let r = infer_first(s, ts, subst_tys(ts, with), n);
            &&& agrees(r, with)
            &&& extends(s, r)
            &&& forall|i: int| 0 <= i < n ==> known(#[trigger] ts[i], r, with)
        }),
    decreases ts, n,
{
    if n > 0 {
        let m = (n - 1) as nat;
        lemma_infer_first(s, ts, with, m);
        let t = infer_first(s, ts, subst_tys(ts, with), m);
        assert(decreases_to!(ts => ts[n - 1]));
        assert(closed(ts[n - 1], with));
        inference_recovers_type_arguments(t, ts[n - 1], with);
        let r = infer(t, ts[n - 1], subst_ty(ts[n - 1], with));
        assert forall|i: int| 0 <= i < n implies known(#[trigger] ts[i], r, with) by {
            if i < m {
                lemma_known_stays(ts[i], t, r, with);
            }
        }
    }
}

} // verus!
