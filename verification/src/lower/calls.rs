//! What names and calls are lowered to, once their arguments have been.
//!
//! A program that type-checks names only what is there. Where a declaration is
//! missing all the same, the result is the unit value.

use vstd::prelude::*;

use super::tables::{
    enum_named, extern_named, field_named, find_enum_named, find_extern_named, find_field_named,
    find_impl_for, find_method_named, find_operator_of, find_option_enum, find_record_named,
    find_trait_method, find_variant_named, impl_for, is_variant_name, method_named, operator_of,
    option_enum, record_named, trait_method, variant_name, variant_named,
};
use crate::ast::{canonical_name, Extern, FieldBinding, Function, Param, Pattern, Program};
use crate::debug::{debug_ty, push_debug_type};
use crate::ir::{
    arm_nodes, node_ty, nodes, opt_bind, opt_binds, opt_text, ArmNode, Bind, IrArm, IrExpr,
    IrPattern, Node, Pat,
};
use crate::resolve::{emit_name, emitted_name, resolution, resolve_in, Resolved};
use crate::strings::{begins_with, contains_name, decimal, owned, push_wide, same, texts};
use crate::subst::{
    impl_method_name, infer, infer_subst, infer_types, infer_zip, lookup, mangle,
    mangle_impl_method, mangled_name, shorter, subst_ty, subst_type, subst_types, subst_tys,
    type_head, type_head_key, Bindings,
};
use crate::typed::{Operator, TypedProgram};
use crate::types::{copy_opt, copy_types, opt_ty, tys, BinaryOp, FnTy, FunctionType, Ty, Type};

verus! {

/// What a specialization specializes: a generic function or an impl method.
#[derive(Debug, Clone, Copy, PartialEq, Eq, Structural)]
pub enum Template {
    Function(usize),
    ImplMethod { impl_ix: usize, method_ix: usize },
}

/// A specialization to emit.
#[derive(Debug)]
pub struct Request {
    /// Its name, e.g. `identity__Int` or `Add__Int__add`.
    pub mangled: String,
    pub template: Template,
    /// What the type parameters (and `Self` for impls) stand for.
    pub subst: Bindings,
}

/// What a [`Request`] says.
#[verifier::ext_equal]
pub struct Wanted {
    pub mangled: Seq<char>,
    pub template: Template,
    pub subst: Seq<Bind>,
}

impl Request {
    pub open spec fn view(&self) -> Wanted {
        Wanted { mangled: self.mangled@, template: self.template, subst: self.subst@ }
    }
}

/// What a list of requests says.
pub open spec fn requests(s: Seq<Request>) -> Seq<Wanted> {
    s.map_values(|r: Request| r@)
}

/// What lowering carries from one expression to the next.
#[derive(Debug)]
pub struct Progress {
    /// Specializations that are still to be emitted.
    pub queue: Vec<Request>,
    /// The names of all specializations asked for, so that each is emitted once.
    pub requested: Vec<String>,
    /// The number of the next temporary of a comparison.
    pub comparisons: u64,
    /// The number of the next temporary of a statement or a field.
    pub statements: u64,
}

/// What [`Progress`] says.
#[verifier::ext_equal]
pub struct St {
    pub queue: Seq<Wanted>,
    pub requested: Seq<Seq<char>>,
    pub comparisons: u64,
    pub statements: u64,
}

impl Progress {
    pub open spec fn view(&self) -> St {
        St {
            queue: requests(self.queue@),
            requested: texts(self.requested@),
            comparisons: self.comparisons,
            statements: self.statements,
        }
    }
}

/// The function that is being lowered, and what it can refer to.
pub struct Context<'a> {
    pub program: &'a Program,
    pub typed: &'a TypedProgram,
    /// What the type parameters stand for. Empty in an ordinary function.
    pub subst: Bindings,
    /// The module path of the function.
    pub module: Vec<String>,
    /// The `module` header of its file.
    pub declared: Option<String>,
    /// The effect that it is an operation of.
    pub effect: Option<String>,
}

/// What a [`Context`] says.
pub struct Cx {
    pub program: Program,
    pub operators: Seq<Operator>,
    pub core: Seq<char>,
    pub subst: Seq<Bind>,
    pub module: Seq<Seq<char>>,
    pub declared: Option<Seq<char>>,
    pub effect: Option<Seq<char>>,
}

impl<'a> Context<'a> {
    pub open spec fn view(&self) -> Cx {
        Cx {
            program: *self.program,
            operators: self.typed.operators@,
            core: self.typed.core_module@,
            subst: self.subst@,
            module: texts(self.module@),
            declared: opt_text(self.declared),
            effect: opt_text(self.effect),
        }
    }
}

/// A lowered expression and its type.
#[derive(Debug)]
pub struct Lowered {
    pub ir: IrExpr,
    pub ty: Type,
}

/// What a [`Lowered`] says.
#[verifier::ext_equal]
pub struct Val {
    pub node: Node,
    pub ty: Ty,
}

impl Lowered {
    pub open spec fn view(&self) -> Val {
        Val { node: self.ir@, ty: self.ty@ }
    }
}

/// The unit value.
pub open spec fn unit() -> Val {
    Val { node: Node::Unit, ty: Ty::Unit }
}

fn unit_value() -> (r: Lowered)
    ensures
        r@ == unit(),
{
    Lowered { ir: IrExpr::Unit, ty: Type::Unit }
}

/// The types of parameters.
pub open spec fn param_tys(s: Seq<Param>) -> Seq<Ty> {
    s.map_values(|p: Param| p.ty@)
}

/// The types of parameters.
pub fn types_of_params(s: &Vec<Param>) -> (r: Vec<Type>)
    ensures
        tys(r@) == param_tys(s@),
{
    let mut out: Vec<Type> = Vec::new();
    let mut i: usize = 0;
    while i < s.len()
        invariant
            i <= s.len(),
            out@.len() == i,
            forall|k: int| 0 <= k < i ==> (#[trigger] out@[k])@ == s@[k].ty@,
        decreases s.len() - i,
    {
        out.push(s[i].ty.copy());
        i += 1;
    }
    assert(tys(out@) =~= param_tys(s@));
    out
}

/// A type under the current specialization.
pub open spec fn applied(cx: Cx, t: Ty) -> Ty {
    if cx.subst.len() == 0 {
        t
    } else {
        subst_ty(t, cx.subst)
    }
}

/// Types under the current specialization.
pub open spec fn applied_all(cx: Cx, s: Seq<Ty>) -> Seq<Ty> {
    s.map_values(|t: Ty| applied(cx, t))
}

impl<'a> Context<'a> {
    /// A type under the current specialization.
    pub fn apply(&self, t: &Type) -> (r: Type)
        ensures
            r@ == applied(self@, t@),
    {
        assert(self.subst@.len() == self.subst.binds@.len());
        if self.subst.binds.len() == 0 {
            t.copy()
        } else {
            subst_type(t, &self.subst)
        }
    }

    /// Types under the current specialization.
    pub fn apply_all(&self, s: &Vec<Type>) -> (r: Vec<Type>)
        ensures
            tys(r@) == applied_all(self@, tys(s@)),
    {
        let ghost all = tys(s@);
        let mut out: Vec<Type> = Vec::new();
        let mut i: usize = 0;
        assert(all.len() == s@.len());
        while i < s.len()
            invariant
                i <= s.len(),
                all == tys(s@),
                all.len() == s@.len(),
                out@.len() == i,
                forall|k: int| 0 <= k < i ==> (#[trigger] out@[k])@ == applied(self@, all[k]),
            decreases s.len() - i,
        {
            assert(all[i as int] == s@[i as int]@);
            out.push(self.apply(&s[i]));
            i += 1;
        }
        assert(tys(out@) =~= applied_all(self@, all));
        out
    }
}

/// One more specialization, unless it has been asked for.
pub open spec fn with_request(st: St, w: Wanted) -> St {
    if st.requested.contains(w.mangled) {
        st
    } else {
        St { queue: st.queue.push(w), requested: st.requested.push(w.mangled), ..st }
    }
}

/// The number after `n`.
pub open spec fn after(n: u64) -> u64 {
    if n < u64::MAX {
        (n + 1) as u64
    } else {
        n
    }
}

impl Progress {
    /// Nothing asked for.
    pub fn new() -> (r: Progress)
        ensures
            r@ == (St {
                queue: Seq::empty(),
                requested: Seq::empty(),
                comparisons: 0,
                statements: 0,
            }),
    {
        let r = Progress {
            queue: Vec::new(),
            requested: Vec::new(),
            comparisons: 0,
            statements: 0,
        };
        assert(r@ =~= (St {
            queue: Seq::empty(),
            requested: Seq::empty(),
            comparisons: 0,
            statements: 0,
        }));
        r
    }

    fn request(&mut self, mangled: &str, template: Template, subst: Bindings)
        ensures
            final(self)@ == with_request(
                old(self)@,
                Wanted { mangled: mangled@, template, subst: subst@ },
            ),
    {
        if !contains_name(&self.requested, mangled) {
            self.requested.push(owned(mangled));
            let wanted = Request { mangled: owned(mangled), template, subst };
            self.queue.push(wanted);
            proof {
                assert(texts(self.requested@) =~= texts(old(self).requested@).push(mangled@));
                assert(requests(self.queue@) =~= requests(old(self).queue@).push(wanted@));
            }
        }
    }

    fn fresh_comparison(&mut self) -> (r: String)
        ensures
            r@ == "$cmp"@ + decimal(old(self)@.comparisons as nat),
            final(self)@ == (St { comparisons: after(old(self)@.comparisons), ..old(self)@ }),
    {
        let mut name = owned("$cmp");
        push_wide(&mut name, self.comparisons as u128);
        if self.comparisons < u64::MAX {
            self.comparisons = self.comparisons + 1;
        }
        name
    }

    /// A fresh name for the temporary of a statement or a field.
    pub fn fresh_statement(&mut self, head: &str) -> (r: String)
        ensures
            r@ == head@ + decimal(old(self)@.statements as nat),
            final(self)@ == (St { statements: after(old(self)@.statements), ..old(self)@ }),
    {
        let mut name = owned(head);
        push_wide(&mut name, self.statements as u128);
        if self.statements < u64::MAX {
            self.statements = self.statements + 1;
        }
        name
    }
}

/// The signature of a specialized function.
pub open spec fn specialized(f: Function, s: Seq<Bind>) -> FnTy {
    FnTy {
        params: subst_tys(param_tys(f.params@), s),
        ret: Box::new(subst_ty(f.ret@, s)),
        throws: match opt_ty(f.throws) {
            Some(t) => Some(Box::new(subst_ty(t, s))),
            None => None,
        },
        effects: f.effects@,
    }
}

fn specialized_type(f: &Function, s: &Bindings) -> (r: FunctionType)
    ensures
        r@ == specialized(*f, s@),
{
    let declared = types_of_params(&f.params);
    let params = subst_types(&declared, s);
    let ret = Box::new(subst_type(&f.ret, s));
    let throws = match &f.throws {
        Some(t) => Some(Box::new(subst_type(t, s))),
        None => None,
    };
    let r = FunctionType { params, ret, throws, effects: f.effects.copy() };
    assert(r@ =~= specialized(*f, s@));
    r
}

/// The signature of an ordinary function.
pub open spec fn declared_type(f: Function) -> FnTy {
    FnTy {
        params: param_tys(f.params@),
        ret: Box::new(f.ret@),
        throws: match opt_ty(f.throws) {
            Some(t) => Some(Box::new(t)),
            None => None,
        },
        effects: f.effects@,
    }
}

fn type_of_function(f: &Function) -> (r: FunctionType)
    ensures
        r@ == declared_type(*f),
{
    let throws = match &f.throws {
        Some(t) => Some(Box::new(t.copy())),
        None => None,
    };
    let r = FunctionType {
        params: types_of_params(&f.params),
        ret: Box::new(f.ret.copy()),
        throws,
        effects: f.effects.copy(),
    };
    assert(r@ =~= declared_type(*f));
    r
}

/// A direct call of the function called `name`.
pub open spec fn direct_call(name: Seq<char>, sig: FnTy, args: Seq<Node>) -> Val {
    Val {
        node: Node::Call {
            callee: Box::new(Node::FunctionRef { name, sig }),
            args,
            ret: *sig.ret,
        },
        ty: *sig.ret,
    }
}

fn call_directly(name: String, sig: FunctionType, args: Vec<IrExpr>) -> (r: Lowered)
    ensures
        r@ == direct_call(name@, sig@, nodes(args@)),
{
    let ret = sig.ret.copy();
    let ty = sig.ret.copy();
    let callee = IrExpr::FunctionRef { name, sig };
    assert(callee@ == (Node::FunctionRef { name: name@, sig: sig@ }));
    assert(sig@.ret == Box::new(sig.ret@));
    Lowered { ir: IrExpr::call(callee, args, ret), ty }
}

/// A direct call of an impl method, specialized for `self_ty`.
pub open spec fn impl_call(cx: Cx, st: St, trait_name: Seq<char>, method: Seq<char>, self_ty: Ty, impl_ix: usize, args: Seq<Node>) -> (
    St,
    Val,
) {
    let d = cx.program.impls@[impl_ix as int];
    match method_named(d.methods@, method) {
        Some(method_ix) => {
            // The impl's own type parameters are inferred from its target.
            let subst = infer(seq![Bind { name: "Self"@, ty: self_ty }], d.target@, self_ty);
            let mangled = impl_method_name(trait_name, self_ty, method);
            (
                with_request(
                    st,
                    Wanted {
                        mangled,
                        template: Template::ImplMethod { impl_ix, method_ix },
                        subst,
                    },
                ),
                direct_call(mangled, specialized(d.methods@[method_ix as int], subst), args),
            )
        },
        None => (st, unit()),
    }
}

fn call_impl(
    cx: &Context<'_>,
    st: &mut Progress,
    trait_name: &str,
    method: &str,
    self_ty: &Type,
    impl_ix: usize,
    args: Vec<IrExpr>,
) -> (r: Lowered)
    requires
        impl_ix < cx.program.impls@.len(),
    ensures
        (final(st)@, r@) == impl_call(
            cx@,
            old(st)@,
            trait_name@,
            method@,
            self_ty@,
            impl_ix,
            nodes(args@),
        ),
{
    let d = &cx.program.impls[impl_ix];
    match find_method_named(&d.methods, method) {
        Some(method_ix) => {
            let mut subst = Bindings::none();
            subst.put("Self", self_ty.copy());
            assert(subst@ =~= seq![Bind { name: "Self"@, ty: self_ty@ }]);
            infer_subst(&mut subst, &d.target, self_ty);
            let mangled = mangle_impl_method(trait_name, self_ty, method);
            let sig = specialized_type(&d.methods[method_ix], &subst);
            st.request(mangled.as_str(), Template::ImplMethod { impl_ix, method_ix }, subst);
            call_directly(mangled, sig, args)
        },
        None => unit_value(),
    }
}

/// The type and the impl that a call of a trait's method dispatches to. `Self` is
/// found from the argument types, or else from the expected type.
pub open spec fn impl_target(cx: Cx, trait_name: Seq<char>, method: Seq<char>, arg_tys: Seq<Ty>, expected: Option<Ty>) -> Option<
    (Ty, usize),
> {
    match trait_method(cx.program.traits@, trait_name, method) {
        Some(m) => {
            let by_args = infer_zip(Seq::empty(), param_tys(m.params@), applied_all(cx, arg_tys));
            let subst = match (lookup(by_args, "Self"@), expected) {
                (None, Some(t)) => infer(by_args, m.ret@, applied(cx, t)),
                _ => by_args,
            };
            match lookup(subst, "Self"@) {
                Some(self_ty) => match type_head(self_ty) {
                    Some(key) => match impl_for(cx.program.impls@, trait_name, key) {
                        Some(ix) => Some((self_ty, ix)),
                        None => None,
                    },
                    None => None,
                },
                None => None,
            }
        },
        None => None,
    }
}

fn target_of_impl(cx: &Context<'_>, trait_name: &str, method: &str, arg_tys: &Vec<Type>, expected: &Option<
    Type,
>) -> (r: Option<(Type, usize)>)
    ensures
        match r {
            Some((t, ix)) => {
                &&& ix < cx.program.impls@.len()
                &&& impl_target(cx@, trait_name@, method@, tys(arg_tys@), opt_ty(*expected))
                    == Some((t@, ix))
            },
            None => impl_target(cx@, trait_name@, method@, tys(arg_tys@), opt_ty(*expected)) is None,
        },
{
    match find_trait_method(&cx.program.traits, trait_name, method) {
        Some(m) => {
            let actual = cx.apply_all(arg_tys);
            let declared = types_of_params(&m.params);
            let mut subst = Bindings::none();
            infer_types(&mut subst, &declared, &actual);
            if subst.get("Self").is_none() {
                if let Some(t) = expected {
                    let want = cx.apply(t);
                    infer_subst(&mut subst, &m.ret, &want);
                }
            }
            match subst.get("Self") {
                Some(self_ty) => match type_head_key(self_ty) {
                    Some(key) => match find_impl_for(&cx.program.impls, trait_name, key.as_str()) {
                        Some(ix) => Some((self_ty.copy(), ix)),
                        None => None,
                    },
                    None => None,
                },
                None => None,
            }
        },
        None => None,
    }
}

/// A call of a method of one of some traits, from the `i`th on: the first with a
/// matching impl.
pub open spec fn trait_call(cx: Cx, st: St, traits: Seq<Seq<char>>, i: int, method: Seq<char>, args: Seq<Node>, arg_tys: Seq<Ty>, expected: Option<Ty>) -> (
    St,
    Val,
)
    decreases traits.len() - i,
{
    if i < 0 || i >= traits.len() {
        (st, unit())
    } else {
        match impl_target(cx, traits[i], method, arg_tys, expected) {
            Some((self_ty, ix)) => impl_call(cx, st, traits[i], method, self_ty, ix, args),
            None => trait_call(cx, st, traits, i + 1, method, args, arg_tys, expected),
        }
    }
}

/// A call of a method of one of some traits.
pub fn call_trait(
    cx: &Context<'_>,
    st: &mut Progress,
    traits: &Vec<String>,
    method: &str,
    args: Vec<IrExpr>,
    arg_tys: &Vec<Type>,
    expected: &Option<Type>,
) -> (r: Lowered)
    ensures
        (final(st)@, r@) == trait_call(
            cx@,
            old(st)@,
            texts(traits@),
            0,
            method@,
            nodes(args@),
            tys(arg_tys@),
            opt_ty(*expected),
        ),
{
    let ghost all = texts(traits@);
    let mut i: usize = 0;
    while i < traits.len()
        invariant
            i <= traits.len(),
            all == texts(traits@),
            st@ == old(st)@,
            trait_call(
                cx@,
                old(st)@,
                all,
                0,
                method@,
                nodes(args@),
                tys(arg_tys@),
                opt_ty(*expected),
            ) == trait_call(
                cx@,
                old(st)@,
                all,
                i as int,
                method@,
                nodes(args@),
                tys(arg_tys@),
                opt_ty(*expected),
            ),
        decreases traits.len() - i,
    {
        assert(all[i as int] == traits@[i as int]@);
        if let Some((self_ty, ix)) = target_of_impl(
            cx,
            traits[i].as_str(),
            method,
            arg_tys,
            expected,
        ) {
            return call_impl(cx, st, traits[i].as_str(), method, &self_ty, ix, args);
        }
        i += 1;
    }
    unit_value()
}

/// Boolean negation: there is no such node, so it is an `if`.
pub open spec fn negated(cond: Node) -> Node {
    Node::If {
        cond: Box::new(cond),
        then: Box::new(Node::Bool(false)),
        els: Box::new(Node::Bool(true)),
        ty: Ty::Bool,
    }
}

fn bool_not(cond: IrExpr) -> (r: IrExpr)
    ensures
        r@ == negated(cond@),
{
    let then = IrExpr::Bool(false);
    let els = IrExpr::Bool(true);
    assert(then@ == Node::Bool(false) && els@ == Node::Bool(true));
    IrExpr::If { cond: Box::new(cond), then: Box::new(then), els: Box::new(els), ty: Type::Bool }
}

/// A call of the one method that a comparison stands for.
pub open spec fn compare(cx: Cx, st: St, trait_name: Seq<char>, method: Seq<char>, a: Val, b: Val) -> (
    St,
    Val,
) {
    trait_call(
        cx,
        st,
        seq![trait_name],
        0,
        method,
        seq![a.node, b.node],
        seq![a.ty, b.ty],
        None,
    )
}

fn call_operator(
    cx: &Context<'_>,
    st: &mut Progress,
    trait_name: &str,
    method: &str,
    a: Lowered,
    b: Lowered,
) -> (r: Lowered)
    ensures
        (final(st)@, r@) == compare(cx@, old(st)@, trait_name@, method@, a@, b@),
{
    let mut traits: Vec<String> = Vec::new();
    traits.push(owned(trait_name));
    let mut args: Vec<IrExpr> = Vec::new();
    args.push(a.ir);
    args.push(b.ir);
    let mut arg_tys: Vec<Type> = Vec::new();
    arg_tys.push(a.ty);
    arg_tys.push(b.ty);
    proof {
        assert(texts(traits@) =~= seq![trait_name@]);
        assert(nodes(args@) =~= seq![a@.node, b@.node]);
        assert(tys(arg_tys@) =~= seq![a@.ty, b@.ty]);
    }
    call_trait(cx, st, &traits, method, args, &arg_tys, &None)
}

/// `b < a` (negated for `<=`), with `a` still evaluated before `b`: the operands
/// are bound to temporaries in source order and compared swapped.
pub open spec fn swapped(cx: Cx, st: St, a: Val, b: Val, negate: bool) -> (St, Val) {
    let a_ty = applied(cx, a.ty);
    let b_ty = applied(cx, b.ty);
    let a_name = "$cmp"@ + decimal(st.comparisons as nat);
    let b_name = "$cmp"@ + decimal(after(st.comparisons) as nat);
    let named = St { comparisons: after(after(st.comparisons)), ..st };
    let (done, v) = compare(
        cx,
        named,
        "Ord"@,
        "lt"@,
        Val { node: Node::Var { name: b_name, ty: b_ty }, ty: b_ty },
        Val { node: Node::Var { name: a_name, ty: a_ty }, ty: a_ty },
    );
    let body = if negate {
        negated(v.node)
    } else {
        v.node
    };
    (
        done,
        Val {
            node: Node::Let {
                name: a_name,
                value_ty: a_ty,
                value: Box::new(a.node),
                next: Box::new(
                    Node::Let {
                        name: b_name,
                        value_ty: b_ty,
                        value: Box::new(b.node),
                        next: Box::new(body),
                    },
                ),
            },
            ty: Ty::Bool,
        },
    )
}

fn compare_swapped(cx: &Context<'_>, st: &mut Progress, a: Lowered, b: Lowered, negate: bool) -> (r:
    Lowered)
    ensures
        (final(st)@, r@) == swapped(cx@, old(st)@, a@, b@, negate),
{
    let a_ty = cx.apply(&a.ty);
    let b_ty = cx.apply(&b.ty);
    let a_name = st.fresh_comparison();
    let b_name = st.fresh_comparison();
    let left = Lowered { ir: IrExpr::var(b_name.clone(), b_ty.copy()), ty: b_ty.copy() };
    let right = Lowered { ir: IrExpr::var(a_name.clone(), a_ty.copy()), ty: a_ty.copy() };
    let v = call_operator(cx, st, "Ord", "lt", left, right);
    let body = if negate {
        bool_not(v.ir)
    } else {
        v.ir
    };
    let inner = IrExpr::let_in(b_name, b_ty, b.ir, body);
    Lowered { ir: IrExpr::let_in(a_name, a_ty, a.ir, inner), ty: Type::Bool }
}

/// A binary operator. Arithmetic, `==`, `<` and `++` dispatch to their trait
/// method; the derived comparisons `!= > <= >=` go by `Eq.eq` and `Ord.lt` while
/// preserving left-to-right evaluation.
pub open spec fn binary(cx: Cx, st: St, op: BinaryOp, a: Val, b: Val) -> (St, Val) {
    match op {
        BinaryOp::Ne => {
            let (done, v) = compare(cx, st, "Eq"@, "eq"@, a, b);
            (done, Val { node: negated(v.node), ty: Ty::Bool })
        },
        BinaryOp::Ge => {
            let (done, v) = compare(cx, st, "Ord"@, "lt"@, a, b);
            (done, Val { node: negated(v.node), ty: Ty::Bool })
        },
        BinaryOp::Gt => swapped(cx, st, a, b, false),
        BinaryOp::Le => swapped(cx, st, a, b, true),
        _ => match operator_of(cx.operators, op) {
            Some(i) => compare(
                cx,
                st,
                cx.operators[i as int].trait_name@,
                cx.operators[i as int].method@,
                a,
                b,
            ),
            None => (st, unit()),
        },
    }
}

/// A binary operator.
pub fn lower_binary(cx: &Context<'_>, st: &mut Progress, op: BinaryOp, a: Lowered, b: Lowered) -> (r:
    Lowered)
    ensures
        (final(st)@, r@) == binary(cx@, old(st)@, op, a@, b@),
{
    match op {
        BinaryOp::Ne => {
            let v = call_operator(cx, st, "Eq", "eq", a, b);
            Lowered { ir: bool_not(v.ir), ty: Type::Bool }
        },
        BinaryOp::Ge => {
            let v = call_operator(cx, st, "Ord", "lt", a, b);
            Lowered { ir: bool_not(v.ir), ty: Type::Bool }
        },
        BinaryOp::Gt => compare_swapped(cx, st, a, b, false),
        BinaryOp::Le => compare_swapped(cx, st, a, b, true),
        _ => match find_operator_of(&cx.typed.operators, op) {
            Some(i) => {
                let entry = &cx.typed.operators[i];
                call_operator(cx, st, entry.trait_name.as_str(), entry.method.as_str(), a, b)
            },
            None => unit_value(),
        },
    }
}

/// What type parameters stand for; `Never` where nothing says.
pub open spec fn type_args(params: Seq<Seq<char>>, s: Seq<Bind>) -> Seq<Ty> {
    params.map_values(
        |p: Seq<char>|
            match lookup(s, p) {
                Some(t) => t,
                None => Ty::Never,
            },
    )
}

/// What type parameters stand for.
pub fn args_of_params(params: &Vec<String>, s: &Bindings) -> (r: Vec<Type>)
    ensures
        tys(r@) == type_args(texts(params@), s@),
{
    let ghost all = texts(params@);
    let mut out: Vec<Type> = Vec::new();
    let mut i: usize = 0;
    while i < params.len()
        invariant
            i <= params.len(),
            all == texts(params@),
            out@.len() == i,
            forall|k: int| 0 <= k < i ==> (#[trigger] out@[k])@ == type_args(all, s@)[k],
        decreases params.len() - i,
    {
        assert(all[i as int] == params@[i as int]@);
        match s.get(params[i].as_str()) {
            Some(t) => out.push(t.copy()),
            None => out.push(Type::Never),
        }
        i += 1;
    }
    assert(tys(out@) =~= type_args(all, s@));
    out
}

/// A value of an enum's variant. The type arguments are inferred from the
/// payload.
pub open spec fn variant_value(cx: Cx, enum_name: Seq<char>, variant: Seq<char>, args: Seq<Node>, arg_tys: Seq<Ty>) -> Option<
    Val,
> {
    match enum_named(cx.program.enums@, enum_name) {
        Some(i) => {
            let d = cx.program.enums@[i as int];
            match variant_named(d.variants@, variant) {
                Some(tag) => {
                    let subst = infer_zip(
                        Seq::empty(),
                        tys(d.variants@[tag as int].fields@),
                        applied_all(cx, arg_tys),
                    );
                    let ty = Ty::Enum(enum_name, type_args(texts(d.type_params@), subst));
                    Some(
                        Val {
                            node: Node::EnumValue { ty, variant, tag: tag as u32, payload: args },
                            ty,
                        },
                    )
                },
                None => None,
            }
        },
        None => None,
    }
}

/// Whether an enum has a variant.
pub open spec fn has_variant(cx: Cx, enum_name: Seq<char>, variant: Seq<char>) -> bool {
    match enum_named(cx.program.enums@, enum_name) {
        Some(i) => variant_named(cx.program.enums@[i as int].variants@, variant) is Some,
        None => false,
    }
}

/// Whether an enum has a variant.
pub fn enum_has_variant(cx: &Context<'_>, enum_name: &str, variant: &str) -> (r: bool)
    ensures
        r == has_variant(cx@, enum_name@, variant@),
{
    match find_enum_named(&cx.program.enums, enum_name) {
        Some(i) => find_variant_named(&cx.program.enums[i].variants, variant).is_some(),
        None => false,
    }
}

/// A value of an enum's variant, or the unit value.
pub open spec fn variant_or_unit(cx: Cx, enum_name: Seq<char>, variant: Seq<char>, args: Seq<Node>, arg_tys: Seq<Ty>) -> Val {
    match variant_value(cx, enum_name, variant, args, arg_tys) {
        Some(v) => v,
        None => unit(),
    }
}

/// A value of an enum's variant, or the unit value.
pub fn value_of_variant(
    cx: &Context<'_>,
    enum_name: &str,
    variant: &str,
    args: Vec<IrExpr>,
    arg_tys: &Vec<Type>,
) -> (r: Lowered)
    ensures
        r@ == variant_or_unit(cx@, enum_name@, variant@, nodes(args@), tys(arg_tys@)),
{
    match find_enum_named(&cx.program.enums, enum_name) {
        Some(i) => {
            let d = &cx.program.enums[i];
            match find_variant_named(&d.variants, variant) {
                Some(tag) => {
                    let actual = cx.apply_all(arg_tys);
                    let mut subst = Bindings::none();
                    infer_types(&mut subst, &d.variants[tag].fields, &actual);
                    let type_args = args_of_params(&d.type_params, &subst);
                    let again = copy_types(&type_args);
                    let ty = Type::Enum(owned(enum_name), type_args);
                    let shown = Type::Enum(owned(enum_name), again);
                    assert(ty@ == Ty::Enum(enum_name@, tys(type_args@)));
                    assert(shown@ == Ty::Enum(enum_name@, tys(again@)));
                    #[verifier::truncate]
                    let number: u32 = tag as u32;
                    let ir = IrExpr::EnumValue {
                        ty,
                        variant: owned(variant),
                        tag: number,
                        payload: args,
                    };
                    assert(ir@ == (Node::EnumValue {
                        ty: ty@,
                        variant: variant@,
                        tag: number,
                        payload: nodes(args@),
                    }));
                    Lowered { ir, ty: shown }
                },
                None => unit_value(),
            }
        },
        None => unit_value(),
    }
}

/// What a bare name stands for: a local value, the absent variant of the
/// language's `Option`, or an ordinary function of the module.
pub open spec fn named_value(cx: Cx, scope: Seq<Bind>, name: Seq<char>) -> Val {
    match lookup(scope, name) {
        Some(ty) => Val { node: Node::Var { name, ty }, ty },
        None => match absent_variant(cx, name) {
            Some(enum_name) => variant_or_unit(cx, enum_name, name, Seq::empty(), Seq::empty()),
            None => match function_value(cx, seq![name]) {
                Some(v) => v,
                None => Val { node: Node::Var { name, ty: Ty::Unit }, ty: Ty::Unit },
            },
        },
    }
}

/// The language's `Option`, if `name` is its absent variant.
pub open spec fn absent_variant(cx: Cx, name: Seq<char>) -> Option<Seq<char>> {
    match option_enum(cx.program.enums@) {
        Some(i) => {
            let d = cx.program.enums@[i as int];
            if name == variant_name(d, 0) {
                Some(d.name@)
            } else {
                None
            }
        },
        None => None,
    }
}

/// An ordinary function used as a value.
pub open spec fn function_value(cx: Cx, segments: Seq<Seq<char>>) -> Option<Val> {
    match resolution(cx.program.functions@, segments, cx.module) {
        Resolved::One(i) => {
            let f = cx.program.functions@[i as int];
            if f.type_params@.len() == 0 {
                Some(
                    Val {
                        node: Node::FunctionRef {
                            name: emit_name(cx.program.functions@, i as int),
                            sig: declared_type(f),
                        },
                        ty: Ty::Function(declared_type(f)),
                    },
                )
            } else {
                None
            }
        },
        _ => None,
    }
}

/// An ordinary function used as a value.
pub fn value_of_function(cx: &Context<'_>, segments: &Vec<String>) -> (r: Option<Lowered>)
    ensures
        match r {
            Some(v) => function_value(cx@, texts(segments@)) == Some(v@),
            None => function_value(cx@, texts(segments@)) is None,
        },
{
    match resolve_in(&cx.program.functions, segments, &cx.module) {
        Resolved::One(i) => {
            let f = &cx.program.functions[i];
            if f.type_params.len() == 0 {
                let sig = type_of_function(f);
                let again = type_of_function(f);
                let ir = IrExpr::FunctionRef { name: emitted_name(&cx.program.functions, i), sig };
                let ty = Type::Function(again);
                assert(ty@ == Ty::Function(again@));
                Some(Lowered { ir, ty })
            } else {
                None
            }
        },
        _ => None,
    }
}

/// What a bare name stands for.
pub fn value_of_name(cx: &Context<'_>, scope: &Bindings, name: &str) -> (r: Lowered)
    ensures
        r@ == named_value(cx@, scope@, name@),
{
    if let Some(ty) = scope.get(name) {
        return Lowered { ir: IrExpr::var(owned(name), ty.copy()), ty: ty.copy() };
    }
    if let Some(i) = find_option_enum(&cx.program.enums) {
        let d = &cx.program.enums[i];
        if is_variant_name(d, 0, name) {
            let args: Vec<IrExpr> = Vec::new();
            let arg_tys: Vec<Type> = Vec::new();
            assert(nodes(args@) =~= Seq::<Node>::empty());
            assert(tys(arg_tys@) =~= Seq::<Ty>::empty());
            return value_of_variant(cx, d.name.as_str(), name, args, &arg_tys);
        }
    }
    let mut segments: Vec<String> = Vec::new();
    segments.push(owned(name));
    assert(texts(segments@) =~= seq![name@]);
    match value_of_function(cx, &segments) {
        Some(v) => v,
        None => Lowered { ir: IrExpr::var(owned(name), Type::Unit), ty: Type::Unit },
    }
}

/// Whether the bodyless function `x` can be called from here. A core prelude
/// intrinsic is visible everywhere; an effect's backing operation only to its
/// sibling operations; any other only within its declaring module, except for
/// host interface functions.
pub open spec fn is_visible(cx: Cx, x: Extern) -> bool {
    if x.is_intrinsic && opt_text(x.module) == Some(cx.core) {
        true
    } else {
        match opt_text(x.effect_name) {
            Some(effect) => cx.effect == Some(effect),
            None => cx.declared == opt_text(x.module) || (!x.is_intrinsic && (opt_text(
                x.module,
            ) matches Some(m) && "host."@.is_prefix_of(m))),
        }
    }
}

fn same_opt(a: &Option<String>, b: &Option<String>) -> (r: bool)
    ensures
        r == (opt_text(*a) == opt_text(*b)),
{
    match (a, b) {
        (Some(x), Some(y)) => same(x.as_str(), y.as_str()),
        (None, None) => true,
        _ => false,
    }
}

fn visible(cx: &Context<'_>, x: &Extern) -> (r: bool)
    ensures
        r == is_visible(cx@, *x),
{
    let in_core = match &x.module {
        Some(m) => same(m.as_str(), cx.typed.core_module.as_str()),
        None => false,
    };
    if x.is_intrinsic && in_core {
        return true;
    }
    if x.effect_name.is_some() {
        return same_opt(&cx.effect, &x.effect_name);
    }
    let hosted = match &x.module {
        Some(m) => begins_with(m.as_str(), "host."),
        None => false,
    };
    same_opt(&cx.declared, &x.module) || (!x.is_intrinsic && hosted)
}

/// The bodyless function that a bare name refers to from here.
pub open spec fn visible_extern(cx: Cx, name: Seq<char>) -> Option<usize> {
    match extern_named(cx.program.externs@, name) {
        Some(i) => if is_visible(cx, cx.program.externs@[i as int]) {
            Some(i)
        } else {
            None
        },
        None => None,
    }
}

/// The bodyless function that a bare name refers to from here.
pub fn find_visible(cx: &Context<'_>, name: &str) -> (r: Option<usize>)
    ensures
        r == visible_extern(cx@, name@),
        r matches Some(i) ==> i < cx.program.externs@.len(),
{
    match find_extern_named(&cx.program.externs, name) {
        Some(i) => {
            if visible(cx, &cx.program.externs[i]) {
                Some(i)
            } else {
                None
            }
        },
        None => None,
    }
}

/// A call of a bodyless function: an intrinsic, or a platform function by its
/// canonical name. A generic intrinsic's return type is made concrete from the
/// argument types.
pub open spec fn foreign_call(x: Extern, args: Seq<Node>, arg_tys: Seq<Ty>) -> Val {
    let ret = subst_ty(x.ret@, infer_zip(Seq::empty(), param_tys(x.params@), arg_tys));
    Val {
        node: if x.is_intrinsic {
            Node::Intrinsic { name: x.name@, args, ret }
        } else {
            Node::Platform {
                name: canonical_name(x.module, x.name@),
                args,
                ret,
                throws: opt_ty(x.throws),
            }
        },
        ty: ret,
    }
}

/// A call of a bodyless function.
pub fn call_foreign(x: &Extern, args: Vec<IrExpr>, arg_tys: &Vec<Type>) -> (r: Lowered)
    ensures
        r@ == foreign_call(*x, nodes(args@), tys(arg_tys@)),
{
    let declared = types_of_params(&x.params);
    let mut subst = Bindings::none();
    infer_types(&mut subst, &declared, arg_tys);
    let ret = subst_type(&x.ret, &subst);
    let ty = ret.copy();
    if x.is_intrinsic {
        let ir = IrExpr::Intrinsic { name: x.name.clone(), args, ret };
        assert(ir@ == (Node::Intrinsic { name: x.name@, args: nodes(args@), ret: ret@ }));
        Lowered { ir, ty }
    } else {
        let throws = copy_opt(&x.throws);
        let name = x.canonical();
        let ir = IrExpr::Platform { name, args, ret, throws };
        assert(ir@ == (Node::Platform {
            name: name@,
            args: nodes(args@),
            ret: ret@,
            throws: opt_ty(throws),
        }));
        Lowered { ir, ty }
    }
}

/// A call of a generic function: a call of its specialization at the type
/// arguments that the argument types give.
pub open spec fn generic_call(cx: Cx, st: St, i: usize, args: Seq<Node>, arg_tys: Seq<Ty>) -> (
    St,
    Val,
) {
    let f = cx.program.functions@[i as int];
    let subst = infer_zip(Seq::empty(), param_tys(f.params@), arg_tys);
    let mangled = mangled_name(
        texts(f.module_segments@),
        f.name@,
        texts(f.type_params@),
        subst,
    );
    (
        with_request(st, Wanted { mangled, template: Template::Function(i), subst }),
        direct_call(mangled, specialized(f, subst), args),
    )
}

/// A call of a generic function.
pub fn call_generic(cx: &Context<'_>, st: &mut Progress, i: usize, args: Vec<IrExpr>, arg_tys: &Vec<
    Type,
>) -> (r: Lowered)
    requires
        i < cx.program.functions@.len(),
    ensures
        (final(st)@, r@) == generic_call(cx@, old(st)@, i, nodes(args@), tys(arg_tys@)),
{
    let f = &cx.program.functions[i];
    let declared = types_of_params(&f.params);
    let mut subst = Bindings::none();
    infer_types(&mut subst, &declared, arg_tys);
    let mangled = mangle(&f.module_segments, f.name.as_str(), &f.type_params, &subst);
    let sig = specialized_type(f, &subst);
    st.request(mangled.as_str(), Template::Function(i), subst);
    call_directly(mangled, sig, args)
}

/// Type parameters bound to type arguments, as far as both go.
pub open spec fn zip_binds(params: Seq<Seq<char>>, args: Seq<Ty>) -> Seq<Bind> {
    Seq::new(
        shorter(params.len(), args.len()),
        |i: int| Bind { name: params[i], ty: args[i] },
    )
}

fn bind_args(params: &Vec<String>, args: &Vec<Type>) -> (r: Bindings)
    ensures
        r@ == zip_binds(texts(params@), tys(args@)),
{
    let ghost ps = texts(params@);
    let ghost ts = tys(args@);
    let mut r = Bindings::none();
    let mut i: usize = 0;
    assert(ps.len() == params@.len() && ts.len() == args@.len());
    while i < params.len() && i < args.len()
        invariant
            i <= params.len(),
            i <= args.len(),
            ps == texts(params@),
            ts == tys(args@),
            ps.len() == params@.len(),
            ts.len() == args@.len(),
            r@.len() == i,
            forall|k: int|
                0 <= k < i ==> #[trigger] r@[k] == (Bind { name: ps[k], ty: ts[k] }),
        decreases params.len() - i,
    {
        assert(ps[i as int] == params@[i as int]@ && ts[i as int] == args@[i as int]@);
        r.put(params[i].as_str(), args[i].copy());
        i += 1;
    }
    assert(r@ =~= zip_binds(ps, ts));
    r
}

/// The index and type of a record-typed value's field. The value's type arguments
/// are put into the declared type.
pub open spec fn record_field(cx: Cx, ty: Ty, field: Seq<char>) -> (u32, Ty) {
    match ty {
        Ty::Enum(name, args) => match record_named(cx.program.records@, name) {
            Some(i) => {
                let d = cx.program.records@[i as int];
                match field_named(d.fields@, field) {
                    Some(k) => (
                        k as u32,
                        subst_ty(
                            d.fields@[k as int].ty@,
                            zip_binds(texts(d.type_params@), args),
                        ),
                    ),
                    None => (0, Ty::Unit),
                }
            },
            None => (0, Ty::Unit),
        },
        _ => (0, Ty::Unit),
    }
}

fn field_of_record(cx: &Context<'_>, ty: &Type, field: &str) -> (r: (u32, Type))
    ensures
        (r.0, r.1@) == record_field(cx@, ty@, field@),
{
    if let Type::Enum(name, args) = ty {
        if let Some(i) = find_record_named(&cx.program.records, name.as_str()) {
            let d = &cx.program.records[i];
            if let Some(k) = find_field_named(&d.fields, field) {
                let subst = bind_args(&d.type_params, args);
                #[verifier::truncate]
                let index: u32 = k as u32;
                return (index, subst_type(&d.fields[k].ty, &subst));
            }
        }
    }
    (0, Type::Unit)
}

/// A field of a value.
pub open spec fn field_of(cx: Cx, v: Val, field: Seq<char>) -> Val {
    let (index, field_ty) = record_field(cx, v.ty, field);
    Val { node: Node::FieldAccess { target: Box::new(v.node), index, field_ty }, ty: field_ty }
}

/// A field of a value.
pub fn access_field(cx: &Context<'_>, v: Lowered, field: &str) -> (r: Lowered)
    ensures
        r@ == field_of(cx@, v@, field@),
{
    let (index, field_ty) = field_of_record(cx, &v.ty, field);
    let ty = field_ty.copy();
    Lowered { ir: IrExpr::FieldAccess { target: Box::new(v.ir), index, field_ty }, ty }
}

/// A dotted path from a local value, up to segment `n`.
pub open spec fn field_path(cx: Cx, head: Val, segments: Seq<Seq<char>>, n: nat) -> Val
    decreases n,
{
    if n <= 1 {
        head
    } else {
        field_of(cx, field_path(cx, head, segments, (n - 1) as nat), segments[n - 1])
    }
}

/// A dotted path used as a value: fields of a local value, or a qualified
/// function.
pub open spec fn path_value(cx: Cx, scope: Seq<Bind>, segments: Seq<Seq<char>>) -> Val {
    if segments.len() > 0 && lookup(scope, segments[0]) is Some {
        let ty = lookup(scope, segments[0])->Some_0;
        field_path(
            cx,
            Val { node: Node::Var { name: segments[0], ty }, ty },
            segments,
            segments.len(),
        )
    } else {
        match function_value(cx, segments) {
            Some(v) => v,
            None => unit(),
        }
    }
}

/// A dotted path used as a value.
pub fn value_of_path(cx: &Context<'_>, scope: &Bindings, segments: &Vec<String>) -> (r: Lowered)
    ensures
        r@ == path_value(cx@, scope@, texts(segments@)),
{
    let ghost all = texts(segments@);
    assert(all.len() == segments@.len());
    if segments.len() > 0 {
        assert(all[0] == segments@[0]@);
        if let Some(ty) = scope.get(segments[0].as_str()) {
            let mut v = Lowered { ir: IrExpr::var(segments[0].clone(), ty.copy()), ty: ty.copy() };
            let ghost head = v@;
            let mut i: usize = 1;
            while i < segments.len()
                invariant
                    1 <= i <= segments.len(),
                    all == texts(segments@),
                    v@ == field_path(cx@, head, all, i as nat),
                decreases segments.len() - i,
            {
                assert(all[i as int] == segments@[i as int]@);
                v = access_field(cx, v, segments[i].as_str());
                i += 1;
            }
            return v;
        }
    }
    match value_of_function(cx, segments) {
        Some(v) => v,
        None => unit_value(),
    }
}

/// The tag of an enum's variant, and its field types under the type's arguments.
pub open spec fn variant_info(cx: Cx, ty: Ty, variant: Seq<char>) -> Option<(u32, Seq<Ty>)> {
    match ty {
        Ty::Enum(name, args) => match enum_named(cx.program.enums@, name) {
            Some(i) => {
                let d = cx.program.enums@[i as int];
                match variant_named(d.variants@, variant) {
                    Some(tag) => Some(
                        (
                            tag as u32,
                            subst_tys(
                                tys(d.variants@[tag as int].fields@),
                                zip_binds(texts(d.type_params@), args),
                            ),
                        ),
                    ),
                    None => None,
                }
            },
            None => None,
        },
        _ => None,
    }
}

fn info_of_variant(cx: &Context<'_>, ty: &Type, variant: &str) -> (r: Option<(u32, Vec<Type>)>)
    ensures
        match r {
            Some((tag, fields)) => variant_info(cx@, ty@, variant@) == Some((tag, tys(fields@))),
            None => variant_info(cx@, ty@, variant@) is None,
        },
{
    if let Type::Enum(name, args) = ty {
        if let Some(i) = find_enum_named(&cx.program.enums, name.as_str()) {
            let d = &cx.program.enums[i];
            if let Some(tag) = find_variant_named(&d.variants, variant) {
                let subst = bind_args(&d.type_params, args);
                #[verifier::truncate]
                let number: u32 = tag as u32;
                return Some((number, subst_types(&d.variants[tag].fields, &subst)));
            }
        }
    }
    None
}

/// The bindings of a pattern's fields.
pub open spec fn field_bindings(fields: Seq<FieldBinding>, field_tys: Seq<Ty>) -> Seq<Option<Bind>> {
    Seq::new(
        fields.len(),
        |i: int|
            match fields[i] {
                FieldBinding::Name(name) => Some(
                    Bind {
                        name: name@,
                        ty: if i < field_tys.len() {
                            field_tys[i]
                        } else {
                            Ty::Unit
                        },
                    },
                ),
                FieldBinding::Ignore => None,
            },
    )
}

/// The names that bindings add to a scope.
pub open spec fn with_bindings(scope: Seq<Bind>, s: Seq<Option<Bind>>) -> Seq<Bind>
    decreases s.len(),
{
    if s.len() == 0 {
        scope
    } else {
        match s.last() {
            Some(b) => with_bindings(scope, s.drop_last()).push(b),
            None => with_bindings(scope, s.drop_last()),
        }
    }
}

/// The type whose variants a pattern names: a qualified pattern names its enum,
/// with the scrutinee's type arguments when it is the scrutinee's own.
pub open spec fn pattern_ty(enum_name: Option<Seq<char>>, scrutinee: Ty) -> Ty {
    match enum_name {
        Some(name) => match scrutinee {
            Ty::Enum(own, args) => if own == name {
                scrutinee
            } else {
                Ty::Enum(name, Seq::empty())
            },
            _ => Ty::Enum(name, Seq::empty()),
        },
        None => scrutinee,
    }
}

/// A pattern, and the scope under it.
pub open spec fn lowered_pattern(cx: Cx, scope: Seq<Bind>, p: Pattern, scrutinee: Ty) -> (
    Pat,
    Seq<Bind>,
) {
    match p {
        Pattern::Wildcard(_) => (Pat::Wildcard { binding: None }, scope),
        Pattern::Binding { name, .. } => {
            let b = Bind { name: name@, ty: scrutinee };
            (Pat::Wildcard { binding: Some(b) }, scope.push(b))
        },
        Pattern::Variant { enum_name, variant, fields, .. } => {
            let (tag, field_tys) = match variant_info(
                cx,
                pattern_ty(opt_text(enum_name), scrutinee),
                variant@,
            ) {
                Some(info) => info,
                None => (0, Seq::empty()),
            };
            let bindings = field_bindings(fields@, field_tys);
            (
                Pat::Variant { variant: variant@, tag, bindings },
                with_bindings(scope, bindings),
            )
        },
    }
}

fn bindings_of(fields: &Vec<FieldBinding>, field_tys: &Vec<Type>) -> (r: Vec<
    Option<(String, Type)>,
>)
    ensures
        opt_binds(r@) == field_bindings(fields@, tys(field_tys@)),
{
    let ghost ts = tys(field_tys@);
    let mut out: Vec<Option<(String, Type)>> = Vec::new();
    let mut i: usize = 0;
    assert(ts.len() == field_tys@.len());
    while i < fields.len()
        invariant
            i <= fields.len(),
            ts == tys(field_tys@),
            ts.len() == field_tys@.len(),
            out@.len() == i,
            forall|k: int|
                0 <= k < i ==> opt_bind(#[trigger] out@[k]) == field_bindings(fields@, ts)[k],
        decreases fields.len() - i,
    {
        match &fields[i] {
            FieldBinding::Name(name) => {
                let ty = if i < field_tys.len() {
                    assert(ts[i as int] == field_tys@[i as int]@);
                    field_tys[i].copy()
                } else {
                    Type::Unit
                };
                out.push(Some((name.clone(), ty)));
            },
            FieldBinding::Ignore => out.push(None),
        }
        i += 1;
    }
    assert(opt_binds(out@) =~= field_bindings(fields@, ts));
    out
}

fn scope_with(scope: &Bindings, s: &Vec<Option<(String, Type)>>) -> (r: Bindings)
    ensures
        r@ == with_bindings(scope@, opt_binds(s@)),
{
    let ghost all = opt_binds(s@);
    let mut r = scope.copy();
    let mut i: usize = 0;
    assert(all.take(0).len() == 0);
    while i < s.len()
        invariant
            i <= s.len(),
            all == opt_binds(s@),
            r@ == with_bindings(scope@, all.take(i as int)),
        decreases s.len() - i,
    {
        proof {
            assert(all.take(i + 1).drop_last() =~= all.take(i as int));
            assert(all.take(i + 1).last() == opt_bind(s@[i as int]));
        }
        if let Some((name, ty)) = &s[i] {
            r.put(name.as_str(), ty.copy());
        }
        i += 1;
    }
    assert(all.take(all.len() as int) =~= all);
    r
}

/// A pattern, and the scope under it.
pub fn lower_pattern(cx: &Context<'_>, scope: &Bindings, p: &Pattern, scrutinee: &Type) -> (r: (
    IrPattern,
    Bindings,
))
    ensures
        (r.0@, r.1@) == lowered_pattern(cx@, scope@, *p, scrutinee@),
{
    match p {
        Pattern::Wildcard(_) => (IrPattern::Wildcard { binding: None }, scope.copy()),
        Pattern::Binding { name, .. } => {
            let inner = scope.with(name.as_str(), scrutinee.copy());
            (IrPattern::Wildcard { binding: Some((name.clone(), scrutinee.copy())) }, inner)
        },
        Pattern::Variant { enum_name, variant, fields, .. } => {
            let named = match enum_name {
                Some(name) => {
                    let own = match scrutinee {
                        Type::Enum(own, _) => same(own.as_str(), name.as_str()),
                        _ => false,
                    };
                    if own {
                        scrutinee.copy()
                    } else {
                        let none: Vec<Type> = Vec::new();
                        assert(tys(none@) =~= Seq::<Ty>::empty());
                        let named = Type::Enum(name.clone(), none);
                        assert(named@ == Ty::Enum(name@, Seq::<Ty>::empty()));
                        named
                    }
                },
                None => scrutinee.copy(),
            };
            assert(named@ == pattern_ty(opt_text(*enum_name), scrutinee@));
            let (tag, field_tys) = match info_of_variant(cx, &named, variant.as_str()) {
                Some((tag, field_tys)) => (tag, field_tys),
                None => {
                    let none: Vec<Type> = Vec::new();
                    assert(tys(none@) =~= Seq::<Ty>::empty());
                    (0u32, none)
                },
            };
            let bindings = bindings_of(fields, &field_tys);
            let inner = scope_with(scope, &bindings);
            (IrPattern::Variant { variant: variant.clone(), tag, bindings }, inner)
        },
    }
}

/// The error type that a single lowered site can raise.
pub open spec fn site_error(e: Node) -> Option<Ty> {
    match e {
        Node::Throw { value } => Some(node_ty(*value)),
        Node::Call { callee, .. } => match node_ty(*callee) {
            Ty::Function(f) => match f.throws {
                Some(t) => Some(*t),
                None => None,
            },
            _ => None,
        },
        _ => None,
    }
}

fn error_of_site(e: &IrExpr) -> (r: Option<Type>)
    ensures
        match r {
            Some(t) => site_error(e@) == Some(t@),
            None => site_error(e@) is None,
        },
{
    match e {
        IrExpr::Throw { value } => Some(value.ty()),
        IrExpr::Call { callee, .. } => match callee.ty() {
            Type::Function(f) => match f.throws {
                Some(t) => {
                    assert(f@.throws == Some(Box::new(t@)));
                    Some(*t)
                },
                None => {
                    assert(f@.throws is None);
                    None
                },
            },
            _ => None,
        },
        _ => None,
    }
}

/// The first of two error types that is there.
pub open spec fn or_error(a: Option<Ty>, b: Option<Ty>) -> Option<Ty> {
    match a {
        Some(t) => Some(t),
        None => b,
    }
}

/// The error type that a `try` body can raise: that of the first `throw` or
/// throwing call in it. What an inner `try` catches is not raised, and what a
/// lambda throws is raised where it is called.
pub open spec fn body_error(e: Node) -> Option<Ty>
    decreases e,
{
    match e {
        Node::Throw { .. } => site_error(e),
        Node::Call { callee, args, .. } => or_error(
            site_error(e),
            or_error(body_error(*callee), list_error(args)),
        ),
        Node::Platform { args, throws, .. } => or_error(throws, list_error(args)),
        Node::Intrinsic { args, .. } => list_error(args),
        Node::TailSelfCall { args, .. } => list_error(args),
        Node::Question { value, .. } => body_error(*value),
        Node::Let { value, next, .. } => or_error(body_error(*value), body_error(*next)),
        Node::Binary { left, right, .. } => or_error(body_error(*left), body_error(*right)),
        Node::Concat { left, right } => or_error(body_error(*left), body_error(*right)),
        Node::If { cond, then, els, .. } => or_error(
            body_error(*cond),
            or_error(body_error(*then), body_error(*els)),
        ),
        Node::Match { scrutinee, arms, .. } => or_error(
            body_error(*scrutinee),
            arms_error(arms),
        ),
        Node::Try { arms, .. } => arms_error(arms),
        Node::Array { elems, .. } => list_error(elems),
        Node::EnumValue { payload, .. } => list_error(payload),
        Node::RecordValue { fields, .. } => list_error(fields),
        Node::FieldAccess { target, .. } => body_error(*target),
        Node::Panic { message } => body_error(*message),
        Node::CharFromCode(value) => body_error(*value),
        Node::StringFromChar(value) => body_error(*value),
        Node::Retain { value } => body_error(*value),
        Node::Release { next, .. } => body_error(*next),
        _ => None,
    }
}

/// The first error type that some expressions can raise.
pub open spec fn list_error(s: Seq<Node>) -> Option<Ty>
    decreases s,
{
    if s.len() == 0 {
        None
    } else {
        or_error(list_error(s.drop_last()), body_error(s.last()))
    }
}

/// The first error type that an arm can raise.
pub open spec fn arm_error(arm: ArmNode) -> Option<Ty>
    decreases arm,
{
    match arm.guard {
        Some(guard) => or_error(body_error(*guard), body_error(*arm.body)),
        None => body_error(*arm.body),
    }
}

/// The first error type that some arms can raise.
pub open spec fn arms_error(s: Seq<ArmNode>) -> Option<Ty>
    decreases s,
{
    if s.len() == 0 {
        None
    } else {
        or_error(arms_error(s.drop_last()), arm_error(s.last()))
    }
}

fn error_of_list(s: &Vec<IrExpr>) -> (r: Option<Type>)
    ensures
        opt_ty(r) == list_error(nodes(s@)),
    decreases s@, 0nat,
{
    let ghost views = nodes(s@);
    let mut found: Option<Type> = None;
    let mut i: usize = 0;
    assert(views.take(0).len() == 0);
    while i < s.len()
        invariant
            i <= s.len(),
            views == nodes(s@),
            opt_ty(found) == list_error(views.take(i as int)),
        decreases s.len() - i,
    {
        proof {
            assert(views.take(i + 1).drop_last() =~= views.take(i as int));
            assert(views.take(i + 1).last() == s@[i as int]@);
        }
        if found.is_none() {
            found = error_of_body(&s[i]);
        }
        i += 1;
    }
    assert(views.take(views.len() as int) =~= views);
    found
}

fn error_of_arms(s: &Vec<IrArm>) -> (r: Option<Type>)
    ensures
        opt_ty(r) == arms_error(arm_nodes(s@)),
    decreases s@, 0nat,
{
    let ghost views = arm_nodes(s@);
    let mut found: Option<Type> = None;
    let mut i: usize = 0;
    assert(views.take(0).len() == 0);
    while i < s.len()
        invariant
            i <= s.len(),
            views == arm_nodes(s@),
            opt_ty(found) == arms_error(views.take(i as int)),
        decreases s.len() - i,
    {
        proof {
            assert(views.take(i + 1).drop_last() =~= views.take(i as int));
            assert(views.take(i + 1).last() == s@[i as int]@);
        }
        if found.is_none() {
            found = error_of_arm(&s[i]);
        }
        i += 1;
    }
    assert(views.take(views.len() as int) =~= views);
    found
}

fn error_of_arm(arm: &IrArm) -> (r: Option<Type>)
    ensures
        opt_ty(r) == arm_error(arm@),
    decreases arm, 0nat,
{
    proof {
        assert(arm@.body == Box::new(arm.body@));
        assert(arm@.guard is Some == arm.guard is Some);
    }
    if let Some(guard) = &arm.guard {
        if let Some(t) = error_of_body(guard) {
            return Some(t);
        }
    }
    error_of_body(&arm.body)
}

/// The error type that a call can raise.
fn error_of_call(e: &IrExpr) -> (r: Option<Type>)
    requires
        e is Call || e is Platform,
    ensures
        opt_ty(r) == body_error(e@),
    decreases e, 0nat,
{
    match e {
        IrExpr::Call { callee, args, .. } => {
            if let Some(t) = error_of_site(e) {
                return Some(t);
            }
            if let Some(t) = error_of_body(callee) {
                return Some(t);
            }
            error_of_list(args)
        },
        IrExpr::Platform { args, throws, .. } => {
            if let Some(t) = throws {
                return Some(t.copy());
            }
            error_of_list(args)
        },
        _ => None,
    }
}

/// The error type that a `try` body can raise.
pub fn error_of_body(e: &IrExpr) -> (r: Option<Type>)
    ensures
        opt_ty(r) == body_error(e@),
    decreases e, 1nat,
{
    match e {
        IrExpr::Throw { .. } => error_of_site(e),
        IrExpr::Call { .. } => error_of_call(e),
        IrExpr::Platform { .. } => error_of_call(e),
        IrExpr::Intrinsic { args, .. } => error_of_list(args),
        IrExpr::TailSelfCall { args, .. } => error_of_list(args),
        IrExpr::Question { value, .. } => error_of_body(value),
        IrExpr::Let { value, next, .. } => match error_of_body(value) {
            Some(t) => Some(t),
            None => error_of_body(next),
        },
        IrExpr::Binary { left, right, .. } => match error_of_body(left) {
            Some(t) => Some(t),
            None => error_of_body(right),
        },
        IrExpr::Concat { left, right } => match error_of_body(left) {
            Some(t) => Some(t),
            None => error_of_body(right),
        },
        IrExpr::If { cond, then, els, .. } => {
            if let Some(t) = error_of_body(cond) {
                return Some(t);
            }
            match error_of_body(then) {
                Some(t) => Some(t),
                None => error_of_body(els),
            }
        },
        IrExpr::Match { scrutinee, arms, .. } => match error_of_body(scrutinee) {
            Some(t) => Some(t),
            None => error_of_arms(arms),
        },
        IrExpr::Try { arms, .. } => error_of_arms(arms),
        IrExpr::Array { elems, .. } => error_of_list(elems),
        IrExpr::EnumValue { payload, .. } => error_of_list(payload),
        IrExpr::RecordValue { fields, .. } => error_of_list(fields),
        IrExpr::FieldAccess { target, .. } => error_of_body(target),
        IrExpr::Panic { message } => error_of_body(message),
        IrExpr::CharFromCode(value) => error_of_body(value),
        IrExpr::StringFromChar(value) => error_of_body(value),
        IrExpr::Retain { value } => error_of_body(value),
        IrExpr::Release { next, .. } => error_of_body(next),
        _ => None,
    }
}

/// Of two branches' types the one to go by: `Never` only if both are.
pub open spec fn picked(a: Ty, b: Ty) -> Ty {
    if a is Never {
        b
    } else {
        a
    }
}

/// The type to go by of the bodies of some arms, after `first`.
pub open spec fn picked_arms(first: Ty, s: Seq<ArmNode>) -> Ty
    decreases s.len(),
{
    if s.len() == 0 {
        first
    } else {
        picked(picked_arms(first, s.drop_last()), node_ty(*s.last().body))
    }
}

/// The type to go by of the bodies of some arms, after `first`.
pub fn pick_arms(first: Type, s: &Vec<IrArm>) -> (r: Type)
    ensures
        r@ == picked_arms(first@, arm_nodes(s@)),
{
    let ghost views = arm_nodes(s@);
    let ghost start = first@;
    let mut r = first;
    let mut i: usize = 0;
    assert(views.take(0).len() == 0);
    while i < s.len()
        invariant
            i <= s.len(),
            views == arm_nodes(s@),
            r@ == picked_arms(start, views.take(i as int)),
        decreases s.len() - i,
    {
        proof {
            assert(views.take(i + 1).drop_last() =~= views.take(i as int));
            assert(views.take(i + 1).last() == s@[i as int]@);
            assert(s@[i as int]@.body == Box::new(s@[i as int].body@));
        }
        if matches!(r, Type::Never) {
            r = s[i].body.ty();
        }
        i += 1;
    }
    assert(views.take(views.len() as int) =~= views);
    r
}

/// A short label for a thrown error's type.
pub open spec fn error_label(t: Ty) -> Seq<char> {
    match t {
        Ty::Enum(name, _) => name,
        _ => debug_ty(Seq::empty(), t),
    }
}

fn label_of_error(t: &Type) -> (r: String)
    ensures
        r@ == error_label(t@),
{
    match t {
        Type::Enum(name, _) => name.clone(),
        _ => {
            let mut out = String::new();
            assert(out@ =~= Seq::<char>::empty());
            push_debug_type(&mut out, t);
            out
        },
    }
}

/// The report of an error that escapes a test: `threw` and its type, with its
/// `Show` rendering when an impl is in scope.
pub open spec fn test_report(cx: Cx, st: St, error: Ty) -> (St, Node) {
    let shows = type_head(error) matches Some(key) && impl_for(
        cx.program.impls@,
        "Show"@,
        key,
    ) is Some;
    if shows {
        let (done, v) = trait_call(
            cx,
            st,
            seq!["Show"@],
            0,
            "to_string"@,
            seq![Node::Var { name: "__test_error"@, ty: error }],
            seq![error],
            None,
        );
        (
            done,
            Node::Concat {
                left: Box::new(Node::String("threw "@ + error_label(error) + ": "@)),
                right: Box::new(v.node),
            },
        )
    } else {
        (st, Node::String("threw "@ + error_label(error)))
    }
}

/// A throwing site in a test body: the error is reported and the test fails.
pub open spec fn test_site(cx: Cx, st: St, v: Val) -> (St, Val) {
    match site_error(v.node) {
        Some(error) => {
            let (done, report) = test_report(cx, st, error);
            (done, Val { node: guarded_site(v, error, report), ty: v.ty })
        },
        None => (st, v),
    }
}

/// The `try` around a throwing site in a test body.
pub open spec fn guarded_site(v: Val, error: Ty, report: Node) -> Node {
    Node::Try {
        body: Box::new(v.node),
        arms: seq![
            ArmNode {
                pattern: Pat::Wildcard {
                    binding: Some(Bind { name: "__test_error"@, ty: error }),
                },
                guard: None,
                body: Box::new(failed_test(report)),
            },
        ],
        ty: v.ty,
        err_name: None,
    }
}

/// Writes a report and fails the test.
pub open spec fn failed_test(report: Node) -> Node {
    Node::Let {
        name: "__test_reported"@,
        value_ty: Ty::Unit,
        value: Box::new(
            Node::Platform {
                name: "io.write_stderr"@,
                args: seq![
                    Node::Concat {
                        left: Box::new(report),
                        right: Box::new(Node::String("\n"@)),
                    },
                ],
                ret: Ty::Unit,
                throws: None,
            },
        ),
        next: Box::new(
            Node::Panic { message: Box::new(Node::String("test failed"@)) },
        ),
    }
}

fn string_node(text: String) -> (r: IrExpr)
    ensures
        r@ == Node::String(text@),
{
    IrExpr::String(text)
}

fn concat_node(left: IrExpr, right: IrExpr) -> (r: IrExpr)
    ensures
        r@ == (Node::Concat { left: Box::new(left@), right: Box::new(right@) }),
{
    IrExpr::Concat { left: Box::new(left), right: Box::new(right) }
}

fn panic_node(message: IrExpr) -> (r: IrExpr)
    ensures
        r@ == (Node::Panic { message: Box::new(message@) }),
{
    IrExpr::Panic { message: Box::new(message) }
}

fn fail_test(report: IrExpr) -> (r: IrExpr)
    ensures
        r@ == failed_test(report@),
{
    let line = concat_node(report, string_node(owned("\n")));
    let mut args: Vec<IrExpr> = Vec::new();
    args.push(line);
    assert(nodes(args@) =~= seq![line@]);
    let write = IrExpr::Platform {
        name: owned("io.write_stderr"),
        args,
        ret: Type::Unit,
        throws: None,
    };
    assert(write@ == (Node::Platform {
        name: "io.write_stderr"@,
        args: nodes(args@),
        ret: Ty::Unit,
        throws: None,
    }));
    let end = panic_node(string_node(owned("test failed")));
    IrExpr::let_in(owned("__test_reported"), Type::Unit, write, end)
}

fn report_test(cx: &Context<'_>, st: &mut Progress, error: &Type) -> (r: IrExpr)
    ensures
        (final(st)@, r@) == test_report(cx@, old(st)@, error@),
{
    let label = label_of_error(error);
    let shows = match type_head_key(error) {
        Some(key) => find_impl_for(&cx.program.impls, "Show", key.as_str()).is_some(),
        None => false,
    };
    let mut text = owned("threw ");
    text.push_str(label.as_str());
    if shows {
        text.push_str(": ");
        let mut traits: Vec<String> = Vec::new();
        traits.push(owned("Show"));
        let mut args: Vec<IrExpr> = Vec::new();
        args.push(IrExpr::var(owned("__test_error"), error.copy()));
        let mut arg_tys: Vec<Type> = Vec::new();
        arg_tys.push(error.copy());
        proof {
            assert(texts(traits@) =~= seq!["Show"@]);
            assert(nodes(args@) =~= seq![Node::Var { name: "__test_error"@, ty: error@ }]);
            assert(tys(arg_tys@) =~= seq![error@]);
        }
        let v = call_trait(cx, st, &traits, "to_string", args, &arg_tys, &None);
        concat_node(string_node(text), v.ir)
    } else {
        string_node(text)
    }
}

/// A throwing site in a test body: the error is reported and the test fails.
pub fn wrap_test_site(cx: &Context<'_>, st: &mut Progress, v: Lowered) -> (r: Lowered)
    ensures
        (final(st)@, r@) == test_site(cx@, old(st)@, v@),
{
    match error_of_site(&v.ir) {
        Some(error) => {
            let report = report_test(cx, st, &error);
            let body = fail_test(report);
            let ghost error_ty = error@;
            let pattern = IrPattern::Wildcard { binding: Some((owned("__test_error"), error)) };
            let arm = IrArm { pattern, guard: None, body };
            let mut arms: Vec<IrArm> = Vec::new();
            arms.push(arm);
            let ty = v.ty.copy();
            proof {
                assert(arm@ == (ArmNode {
                    pattern: pattern@,
                    guard: None,
                    body: Box::new(body@),
                }));
                assert(arm_nodes(arms@) =~= seq![arm@]);
            }
            let ir = IrExpr::Try { body: Box::new(v.ir), arms, ty, err_name: None };
            assert(ir@ == (Node::Try {
                body: Box::new(v.ir@),
                arms: arm_nodes(arms@),
                ty: ty@,
                err_name: None,
            }));
            Lowered { ir, ty: v.ty }
        },
        None => v,
    }
}

} // verus!
