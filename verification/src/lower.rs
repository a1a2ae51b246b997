//! Lowering: from the syntax tree to the intermediate representation.
//!
//! Ordinary functions are lowered in order. A call of a generic function or of
//! a trait method asks for a specialization, which is lowered once per choice of
//! type arguments. Imported functions that the program does not reach are
//! dropped, and self tail calls become jumps.

use vstd::prelude::*;

use self::calls::{
    applied, Context, Cx, Progress, Request, St, Template, Wanted,
};
use self::expr::{block, lower_items};
use self::prune::{prune_unreachable_imports, pruned};
use crate::ast::{Function, Param, Program};
use crate::ir::{opt_text, param_binds, Bind, FnNode, IrFunction, IrParam, IrProgram};
use crate::resolve::{emit_name, emitted_name};
use crate::strings::{copy_names, texts};
use crate::subst::{shorter, Bindings};
use crate::tail::{rewrite_self_tail_calls, with_jumps};
use crate::typed::TypedProgram;
use crate::types::{copy_opt, opt_ty, Type};

pub mod agree;
pub mod calls;
pub mod compared;
pub mod expr;
pub mod float;
pub mod free;
pub mod prune;
pub mod stepwise;
pub mod tables;

verus! {

/// What parameters bind, with the types that the type checker gave them.
pub open spec fn checked_params(params: Seq<Param>, types: Seq<Type>) -> Seq<Bind> {
    Seq::new(
        shorter(params.len(), types.len()),
        |i: int| Bind { name: params[i].name@, ty: types[i]@ },
    )
}

/// What parameters bind in a specialization.
pub open spec fn special_params(cx: Cx, params: Seq<Param>) -> Seq<Bind> {
    params.map_values(|p: Param| Bind { name: p.name@, ty: applied(cx, p.ty@) })
}

/// Where function `f` of a program stands.
pub open spec fn context_of(p: Program, t: TypedProgram, f: Function, subst: Seq<Bind>) -> Cx {
    Cx {
        program: p,
        operators: t.operators@,
        core: t.core_module@,
        subst,
        module: texts(f.module_segments@),
        declared: opt_text(f.declared_module),
        effect: opt_text(f.effect_name),
    }
}

/// An ordinary function, lowered.
pub open spec fn lowered_function(p: Program, t: TypedProgram, st: St, i: int) -> (St, FnNode) {
    let f = p.functions@[i];
    let sig = t.functions@[i];
    let params = checked_params(f.params@, sig.params@);
    let (done, v) = lower_items(
        context_of(p, t, f, Seq::empty()),
        st,
        params,
        f.body.items@,
        0,
        Some(sig.ret@),
        f.is_test,
    );
    (
        done,
        FnNode {
            name: emit_name(p.functions@, i),
            params,
            ret: sig.ret@,
            throws: opt_ty(sig.throws),
            effects: sig.effects@,
            body: v.node,
        },
    )
}

/// The ordinary ones of the first `n` functions, lowered.
pub open spec fn lowered_functions(p: Program, t: TypedProgram, n: nat) -> (St, Seq<FnNode>)
    decreases n,
{
    if n == 0 {
        (
            St {
                queue: Seq::empty(),
                requested: Seq::empty(),
                comparisons: 0,
                statements: 0,
            },
            Seq::empty(),
        )
    } else {
        let (st, out) = lowered_functions(p, t, (n - 1) as nat);
        if p.functions@[n - 1].type_params@.len() == 0 {
            let (done, f) = lowered_function(p, t, st, n - 1);
            (done, out.push(f))
        } else {
            (st, out)
        }
    }
}

/// The function that a specialization specializes.
pub open spec fn template_of(p: Program, t: Template) -> Option<Function> {
    match t {
        Template::Function(i) => if i < p.functions@.len() {
            Some(p.functions@[i as int])
        } else {
            None
        },
        Template::ImplMethod { impl_ix, method_ix } => if impl_ix < p.impls@.len() && method_ix
            < p.impls@[impl_ix as int].methods@.len() {
            Some(p.impls@[impl_ix as int].methods@[method_ix as int])
        } else {
            None
        },
    }
}

/// A specialization of `f`, lowered.
pub open spec fn specialized_function(p: Program, t: TypedProgram, st: St, f: Function, w: Wanted) -> (
    St,
    FnNode,
) {
    let cx = context_of(p, t, f, w.subst);
    let params = special_params(cx, f.params@);
    let ret = applied(cx, f.ret@);
    let (done, v) = lower_items(cx, st, params, f.body.items@, 0, Some(ret), false);
    (
        done,
        FnNode {
            name: w.mangled,
            params,
            ret,
            throws: match opt_ty(f.throws) {
                Some(e) => Some(applied(cx, e)),
                None => None,
            },
            effects: f.effects@,
            body: v.node,
        },
    )
}

/// The specializations that are asked for, last asked first, lowered. Each may
/// ask for more; `fuel` bounds how many are lowered.
pub open spec fn specializations(p: Program, t: TypedProgram, st: St, out: Seq<FnNode>, fuel: nat) -> Seq<
    FnNode,
>
    decreases fuel,
{
    if fuel == 0 || st.queue.len() == 0 {
        out
    } else {
        let w = st.queue.last();
        let rest = St { queue: st.queue.drop_last(), ..st };
        match template_of(p, w.template) {
            Some(f) => {
                let (done, special) = specialized_function(p, t, rest, f, w);
                specializations(p, t, done, out.push(special), (fuel - 1) as nat)
            },
            None => specializations(p, t, rest, out, (fuel - 1) as nat),
        }
    }
}

/// The emitted names of those of the first `n` functions that the compilation
/// root declares.
pub open spec fn root_names(s: Seq<Function>, n: nat) -> Seq<Seq<char>>
    decreases n,
{
    if n == 0 {
        Seq::empty()
    } else {
        let before = root_names(s, (n - 1) as nat);
        if s[n - 1].module_segments@.len() == 0 {
            before.push(emit_name(s, n - 1))
        } else {
            before
        }
    }
}

/// All functions of a program, lowered: those that are not generic, then the
/// specializations.
pub open spec fn all_lowered(p: Program, t: TypedProgram) -> Seq<FnNode> {
    let (st, out) = lowered_functions(p, t, shorter(p.functions@.len(), t.functions@.len()));
    specializations(p, t, st, out, u64::MAX as nat)
}

/// A program, lowered.
pub open spec fn lowered_program(p: Program, t: TypedProgram) -> Seq<FnNode> {
    pruned(all_lowered(p, t), root_names(p.functions@, p.functions@.len())).map_values(
        |f: FnNode| with_jumps(f),
    )
}

fn context<'a>(program: &'a Program, typed: &'a TypedProgram, f: &Function, subst: Bindings) -> (r:
    Context<'a>)
    ensures
        r@ == context_of(*program, *typed, *f, subst@),
{
    let declared = match &f.declared_module {
        Some(name) => Some(name.clone()),
        None => None,
    };
    let effect = match &f.effect_name {
        Some(name) => Some(name.clone()),
        None => None,
    };
    Context { program, typed, subst, module: copy_names(&f.module_segments), declared, effect }
}

/// Binds parameters: the scope and the parameters of the lowered function.
fn bind_params(names: &Vec<Param>, types: Vec<Type>) -> (r: (Bindings, Vec<IrParam>))
    requires
        types@.len() <= names@.len(),
    ensures
        r.0@ == checked_params(names@, types@),
        param_binds(r.1@) == checked_params(names@, types@),
{
    let ghost source = types@;
    let ghost want = checked_params(names@, source);
    let mut scope = Bindings::none();
    let mut out: Vec<IrParam> = Vec::new();
    let mut i: usize = 0;
    assert(scope@ =~= want.take(0));
    while i < types.len()
        invariant
            i <= types.len(),
            types@ == source,
            source.len() <= names@.len(),
            want == checked_params(names@, source),
            want.len() == source.len(),
            scope@ == want.take(i as int),
            out@.len() == i,
            forall|k: int| 0 <= k < i ==> (#[trigger] out@[k])@ == want[k],
        decreases types.len() - i,
    {
        scope.put(names[i].name.as_str(), types[i].copy());
        out.push(IrParam { name: names[i].name.clone(), ty: types[i].copy() });
        assert(scope@ =~= want.take(i + 1));
        i += 1;
    }
    assert(want.take(want.len() as int) =~= want);
    assert(param_binds(out@) =~= want);
    (scope, out)
}

/// The first of some types, at most `n`.
fn first_types(types: &Vec<Type>, n: usize) -> (r: Vec<Type>)
    ensures
        r@.len() == shorter(n as nat, types@.len()),
        forall|k: int| 0 <= k < r@.len() ==> (#[trigger] r@[k])@ == types@[k]@,
{
    let mut out: Vec<Type> = Vec::new();
    let mut i: usize = 0;
    while i < types.len() && i < n
        invariant
            i <= types.len(),
            i <= n,
            out@.len() == i,
            forall|k: int| 0 <= k < i ==> (#[trigger] out@[k])@ == types@[k]@,
        decreases types.len() - i,
    {
        out.push(types[i].copy());
        i += 1;
    }
    out
}

fn lower_function(program: &Program, typed: &TypedProgram, st: &mut Progress, i: usize) -> (r:
    IrFunction)
    requires
        i < program.functions@.len(),
        i < typed.functions@.len(),
    ensures
        (final(st)@, r@) == lowered_function(*program, *typed, old(st)@, i as int),
{
    let f = &program.functions[i];
    let sig = &typed.functions[i];
    let none = Bindings::none();
    assert(none@ =~= Seq::<Bind>::empty());
    let cx = context(program, typed, f, none);
    let types = first_types(&sig.params, f.params.len());
    let ghost given = types@;
    let (scope, params) = bind_params(&f.params, types);
    assert(checked_params(f.params@, given) =~= checked_params(f.params@, sig.params@));
    let ret = Some(sig.ret.copy());
    let v = block(&cx, st, &scope, &f.body, &ret, f.is_test);
    IrFunction {
        name: emitted_name(&program.functions, i),
        params,
        ret: sig.ret.copy(),
        throws: copy_opt(&sig.throws),
        effects: sig.effects.copy(),
        body: v.ir,
    }
}

fn applied_types(cx: &Context<'_>, params: &Vec<Param>) -> (r: Vec<Type>)
    ensures
        r@.len() == params@.len(),
        forall|k: int| 0 <= k < r@.len() ==> (#[trigger] r@[k])@ == applied(cx@, params@[k].ty@),
{
    let mut out: Vec<Type> = Vec::new();
    let mut i: usize = 0;
    while i < params.len()
        invariant
            i <= params.len(),
            out@.len() == i,
            forall|k: int|
                0 <= k < i ==> (#[trigger] out@[k])@ == applied(cx@, params@[k].ty@),
        decreases params.len() - i,
    {
        out.push(cx.apply(&params[i].ty));
        i += 1;
    }
    out
}

fn lower_named_function(program: &Program, typed: &TypedProgram, st: &mut Progress, f: &Function, request: Request) -> (r:
    IrFunction)
    ensures
        (final(st)@, r@) == specialized_function(*program, *typed, old(st)@, *f, request@),
{
    let cx = context(program, typed, f, request.subst);
    let types = applied_types(&cx, &f.params);
    let ghost given = types@;
    let (scope, params) = bind_params(&f.params, types);
    assert(checked_params(f.params@, given) =~= special_params(cx@, f.params@));
    let ret = cx.apply(&f.ret);
    let expected = Some(ret.copy());
    let v = block(&cx, st, &scope, &f.body, &expected, false);
    let throws = match &f.throws {
        Some(t) => Some(cx.apply(t)),
        None => None,
    };
    IrFunction {
        name: request.mangled,
        params,
        ret,
        throws,
        effects: f.effects.copy(),
        body: v.ir,
    }
}

fn find_template<'a>(program: &'a Program, t: Template) -> (r: Option<&'a Function>)
    ensures
        match (r, template_of(*program, t)) {
            (Some(f), Some(g)) => *f == g,
            (None, None) => true,
            _ => false,
        },
{
    match t {
        Template::Function(i) => {
            if i < program.functions.len() {
                Some(&program.functions[i])
            } else {
                None
            }
        },
        Template::ImplMethod { impl_ix, method_ix } => {
            if impl_ix < program.impls.len() && method_ix < program.impls[impl_ix].methods.len() {
                Some(&program.impls[impl_ix].methods[method_ix])
            } else {
                None
            }
        },
    }
}

fn find_root_names(s: &Vec<Function>) -> (r: Vec<String>)
    ensures
        texts(r@) == root_names(s@, s@.len()),
{
    let mut out: Vec<String> = Vec::new();
    let mut i: usize = 0;
    assert(texts(out@) =~= Seq::<Seq<char>>::empty());
    while i < s.len()
        invariant
            i <= s.len(),
            texts(out@) == root_names(s@, i as nat),
        decreases s.len() - i,
    {
        if s[i].module_segments.len() == 0 {
            let ghost before = texts(out@);
            let name = emitted_name(s, i);
            out.push(name);
            assert(texts(out@) =~= before.push(name@));
        }
        i += 1;
    }
    out
}

/// Lowers the specializations that are asked for.
fn drain(program: &Program, typed: &TypedProgram, st: Progress, functions: Vec<IrFunction>) -> (r:
    IrProgram)
    ensures
        r@ == specializations(
            *program,
            *typed,
            st@,
            (IrProgram { functions })@,
            u64::MAX as nat,
        ),
{
    let ghost all = specializations(
        *program,
        *typed,
        st@,
        (IrProgram { functions })@,
        u64::MAX as nat,
    );
    let mut st = st;
    let mut out = IrProgram { functions };
    let mut fuel: u64 = u64::MAX;
    while fuel > 0 && st.queue.len() > 0
        invariant
            all == specializations(*program, *typed, st@, out@, fuel as nat),
        decreases fuel,
    {
        let ghost now = st@;
        let ghost before = out@;
        assert(now.queue.len() == st.queue@.len());
        if let Some(request) = st.queue.pop() {
            proof {
                assert(request@ == now.queue.last());
                assert(st@ =~= (St { queue: now.queue.drop_last(), ..now }));
            }
            if let Some(f) = find_template(program, request.template) {
                let special = lower_named_function(program, typed, &mut st, f, request);
                out.functions.push(special);
                assert(out@ =~= before.push(special@));
            }
        }
        fuel -= 1;
    }
    proof {
        assert(st@.queue.len() == st.queue@.len());
    }
    out
}

/// Lowers a program that has been type-checked.
pub fn lower(program: &Program, typed: &TypedProgram) -> (r: IrProgram)
    ensures
        r@ == lowered_program(*program, *typed),
{
    let mut st = Progress::new();
    let mut out = IrProgram { functions: Vec::new() };
    let mut i: usize = 0;
    assert(out@ =~= Seq::<FnNode>::empty());
    while i < program.functions.len() && i < typed.functions.len()
        invariant
            i <= program.functions.len(),
            i <= typed.functions.len(),
            (st@, out@) == lowered_functions(*program, *typed, i as nat),
        decreases program.functions.len() - i,
    {
        if program.functions[i].type_params.len() == 0 {
            let ghost before = out@;
            let f = lower_function(program, typed, &mut st, i);
            out.functions.push(f);
            assert(out@ =~= before.push(f@));
        }
        i += 1;
    }
    assert(i as nat == shorter(program.functions@.len(), typed.functions@.len()));
    let all = drain(program, typed, st, out.functions);
    let roots = find_root_names(&program.functions);
    let kept = prune_unreachable_imports(all, &roots);
    rewrite_self_tail_calls(kept)
}

} // verus!
