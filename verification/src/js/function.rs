//! Emitted functions do what the program's functions do.

use vstd::prelude::*;

use crate::ir::{Bind, FnNode, Node};
use crate::js::faithful::{agree, all_free, fits, lemma_emitted, taken_with, vis_with};
use crate::js::run::{run, written, Js, Scope};
use crate::js::{js, js_function, js_ident, js_params};
use crate::meaning::{bind_all, done, eval, Env, Event, Model, Outcome, Run, Value};
use crate::strings::joined;
use crate::types::Ty;

verus! {

/// A function of JavaScript: its parameters, what it returns, and whether it returns
/// `None` where that is propagated.
pub struct JsFn {
    pub params: Seq<Seq<char>>,
    pub catches: bool,
    pub body: Js,
}

/// How a function of a module is written.
pub open spec fn written_function(name: Seq<char>, f: JsFn) -> Seq<char> {
    let head = "function "@ + name + "("@ + joined(f.params, ", "@) + ") {\n"@;
    if f.catches {
        head + "  try { return "@ + written(f.body)
            + "; } catch (__e) { if (__e instanceof EmelaNone) return { tag: 1, values: [] }; throw __e; }\n}\n\n"@
    } else {
        head + "  return "@ + written(f.body) + ";\n}\n\n"@
    }
}

/// How a function expression is written.
pub open spec fn written_lambda(f: JsFn) -> Seq<char> {
    let head = "function("@ + joined(f.params, ", "@) + ")"@;
    if f.catches {
        head + " { try { return "@ + written(f.body)
            + "; } catch (__e) { if (__e instanceof EmelaNone) return { tag: 1, values: [] }; throw __e; } }"@
    } else {
        head + " { return "@ + written(f.body) + "; }"@
    }
}

/// Variables with values, the last of equal names hiding the others.
pub open spec fn scope_of(sc: Scope, names: Seq<Seq<char>>, vals: Seq<Value>) -> Scope
    decreases names.len(),
{
    if names.len() == 0 {
        sc
    } else {
        scope_of(sc, names.drop_last(), vals).insert(
            names.last(),
            Some(vals[names.len() - 1]),
        )
    }
}

/// A value, or `None` where that is propagated.
pub open spec fn caught(catches: bool, r: Run) -> Run {
    match r.out {
        Outcome::Nothing => if catches {
            done(Value::Variant(1, Seq::empty()), r.trace)
        } else {
            r
        },
        _ => r,
    }
}

/// What a call of a function comes to. `sc` holds the variables around it.
pub open spec fn run_function(m: Model, g: spec_fn(Seq<char>) -> Value, sc: Scope, f: JsFn, args: Seq<Value>, t: Seq<Event>) -> Run {
    caught(f.catches, run(m, g, scope_of(sc, f.params, args), f.body, t))
}

/// The parameters of a function as the bindings of a pattern.
pub open spec fn bindings(params: Seq<Bind>) -> Seq<Option<Bind>> {
    params.map_values(|b: Bind| Some(b))
}

/// What a call of a function of the program comes to: a function that returns an
/// `Option` returns a propagated `None`.
pub open spec fn eval_function(m: Model, me: Seq<char>, env: Env, params: Seq<Bind>, ret: Ty, body: Node, args: Seq<Value>, t: Seq<Event>) -> Run {
    caught(ret is Option, eval(m, me, bind_all(env, bindings(params), args), body, t))
}

/// Whether a JavaScript function does what a function of the program does.
pub open spec fn does(m: Model, g: spec_fn(Seq<char>) -> Value, vis: Set<Seq<char>>, taken: Set<Seq<char>>, me: Seq<char>, params: Seq<Bind>, ret: Ty, body: Node, f: JsFn) -> bool {
    forall|env: Env, sc: Scope, args: Seq<Value>, t: Seq<Event>|
        #![trigger run_function(m, g, sc, f, args, t), eval_function(m, me, env, params, ret, body, args, t)]
        agree(vis, taken, env, sc) && args.len() == params.len() && !(eval_function(
            m,
            me,
            env,
            params,
            ret,
            body,
            args,
            t,
        ).out is Stuck) ==> run_function(m, g, sc, f, args, t) == eval_function(
            m,
            me,
            env,
            params,
            ret,
            body,
            args,
            t,
        )
}

/// The identifiers of parameters.
pub open spec fn idents(params: Seq<Bind>) -> Seq<Seq<char>> {
    params.map_values(|b: Bind| js_ident(b.name))
}

/// Arguments reach the parameters that they are passed for.
proof fn lemma_parameters(vis: Set<Seq<char>>, taken: Set<Seq<char>>, env: Env, sc: Scope, params: Seq<Bind>, args: Seq<Value>)
    requires
        agree(vis, taken, env, sc),
        all_free(vis, bindings(params)),
        params.len() == args.len(),
    ensures
        agree(
            vis_with(vis, bindings(params)),
            taken_with(taken, bindings(params)),
            bind_all(env, bindings(params), args),
            scope_of(sc, idents(params), args),
        ),
    decreases params.len(),
{
    if params.len() > 0 {
        let front = params.drop_last();
        let last = params.last();
        assert(bindings(params).drop_last() =~= bindings(front));
        assert(bindings(params).last() == Some(last));
        assert(idents(params).drop_last() =~= idents(front));
        assert(idents(params).last() == js_ident(last.name));
        lemma_prefix(vis, taken, env, sc, front, args, args.drop_last());
        lemma_parameters(vis, taken, env, sc, front, args.drop_last());
    }
}

proof fn lemma_prefix(vis: Set<Seq<char>>, taken: Set<Seq<char>>, env: Env, sc: Scope, params: Seq<Bind>, a: Seq<Value>, b: Seq<Value>)
    requires
        params.len() <= a.len(),
        params.len() <= b.len(),
        forall|i: int| 0 <= i < params.len() ==> a[i] == #[trigger] b[i],
    ensures
        bind_all(env, bindings(params), a) == bind_all(env, bindings(params), b),
        scope_of(sc, idents(params), a) == scope_of(sc, idents(params), b),
    decreases params.len(),
{
    if params.len() > 0 {
        let front = params.drop_last();
        assert(bindings(params).drop_last() =~= bindings(front));
        assert(idents(params).drop_last() =~= idents(front));
        lemma_prefix(vis, taken, env, sc, front, a, b);
        assert(a[params.len() - 1] == b[params.len() - 1]);
    }
}

/// The JavaScript of a function's parameters and body.
proof fn lemma_function(m: Model, g: spec_fn(Seq<char>) -> Value, vis: Set<Seq<char>>, taken: Set<Seq<char>>, me: Seq<char>, params: Seq<Bind>, ret: Ty, body: Node) -> (f: JsFn)
    requires
        all_free(vis, bindings(params)),
        fits(
            m,
            g,
            me,
            vis_with(vis, bindings(params)),
            taken_with(taken, bindings(params)),
            body,
        ),
    ensures
        f.params == idents(params),
        f.catches == ret is Option,
        forall|out: Seq<char>| #[trigger] js(out, me, body) == out + written(f.body),
        does(m, g, vis, taken, me, params, ret, body, f),
{
    let inner = vis_with(vis, bindings(params));
    let all = taken_with(taken, bindings(params));
    let x = lemma_emitted(m, g, me, inner, all, body);
    let f = JsFn { params: idents(params), catches: ret is Option, body: x };
    assert forall|env: Env, sc: Scope, args: Seq<Value>, t: Seq<Event>|
        #![trigger run_function(m, g, sc, f, args, t), eval_function(m, me, env, params, ret, body, args, t)]
        agree(vis, taken, env, sc) && args.len() == params.len() && !(eval_function(
            m,
            me,
            env,
            params,
            ret,
            body,
            args,
            t,
        ).out is Stuck) implies run_function(m, g, sc, f, args, t) == eval_function(
        m,
        me,
        env,
        params,
        ret,
        body,
        args,
        t,
    ) by {
        lemma_parameters(vis, taken, env, sc, params, args);
        let e2 = bind_all(env, bindings(params), args);
        let s2 = scope_of(sc, idents(params), args);
        assert(agree(inner, all, e2, s2));
        assert(!(eval(m, me, e2, body, t).out is Stuck));
        assert(run(m, g, s2, x, t) == eval(m, me, e2, body, t));
    }
    f
}

/// A comment on a line of its own, or nothing.
pub open spec fn is_comment(c: Seq<char>) -> bool {
    c.len() == 0 || (c.len() >= 3 && c[0] == '/' && c[1] == '/' && c.last() == '\n')
}

/// The JavaScript of a function of the program, behind a comment, takes the same
/// arguments in the same order and comes to the same with them.
pub proof fn emitted_functions_do_what_the_functions_do(
    m: Model,
    g: spec_fn(Seq<char>) -> Value,
    out: Seq<char>,
    f: FnNode,
)
    requires
        all_free(Set::empty(), bindings(f.params)),
        fits(
            m,
            g,
            f.name,
            vis_with(Set::empty(), bindings(f.params)),
            taken_with(Set::empty(), bindings(f.params)),
            f.body,
        ),
    ensures
        exists|c: Seq<char>, x: JsFn|
            #![trigger is_comment(c), written_function(js_ident(f.name), x)]
            {
                &&& is_comment(c)
                &&& js_function(out, f) == out + c + written_function(js_ident(f.name), x)
                &&& x.params.len() == f.params.len()
                &&& does(
                    m,
                    g,
                    Set::empty(),
                    Set::empty(),
                    f.name,
                    f.params,
                    f.ret,
                    f.body,
                    x,
                )
            },
{
    let x = lemma_function(
        m,
        g,
        Set::empty(),
        Set::empty(),
        f.name,
        f.params,
        f.ret,
        f.body,
    );
    let c = if f.effects.len() == 0 {
        Seq::<char>::empty()
    } else {
        "// uses {"@ + joined(f.effects, ", "@) + "}\n"@
    };
    reveal_strlit("// uses {");
    reveal_strlit("}\n");
    assert(is_comment(c));
    let commented = if f.effects.len() == 0 {
        out
    } else {
        out + "// uses {"@ + joined(f.effects, ", "@) + "}\n"@
    };
    assert(commented =~= out + c);
    assert(js_params(f.params) == joined(x.params, ", "@));
    let params = js_params(f.params);
    let head = commented + "function "@ + js_ident(f.name) + "("@ + params + ") {\n"@;
    let name = js_ident(f.name);
    let own = "function "@ + name + "("@ + params + ") {\n"@;
    assert(head =~= commented + own);
    let b = written(x.body);
    if f.ret is Option {
        let end = "; } catch (__e) { if (__e instanceof EmelaNone) return { tag: 1, values: [] }; throw __e; }\n}\n\n"@;
        assert(js(head + "  try { return "@, f.name, f.body) == head + "  try { return "@ + b);
        lemma_group(commented, own, "  try { return "@, b, end);
        assert(written_function(name, x) == own + "  try { return "@ + b + end);
    } else {
        assert(js(head + "  return "@, f.name, f.body) == head + "  return "@ + b);
        lemma_group(commented, own, "  return "@, b, ";\n}\n\n"@);
        assert(written_function(name, x) == own + "  return "@ + b + ";\n}\n\n"@);
    }
    assert(js_function(out, f) == out + c + written_function(name, x));
}

proof fn lemma_group(a: Seq<char>, b: Seq<char>, c: Seq<char>, d: Seq<char>, e: Seq<char>)
    ensures
        (a + b) + c + d + e == a + (b + c + d + e),
{
    assert((a + b) + c + d + e =~= a + (b + c + d + e));
}

/// The JavaScript of a lambda takes the same arguments in the same order and comes to
/// the same with them, in whatever variables surround it.
pub proof fn emitted_lambdas_do_what_the_lambdas_do(
    m: Model,
    g: spec_fn(Seq<char>) -> Value,
    out: Seq<char>,
    me: Seq<char>,
    vis: Set<Seq<char>>,
    taken: Set<Seq<char>>,
    e: Node,
)
    requires
        e matches Node::Fn { params, body, .. } && all_free(vis, bindings(params)) && fits(
            m,
            g,
            me,
            vis_with(vis, bindings(params)),
            taken_with(taken, bindings(params)),
            *body,
        ),
    ensures
        e matches Node::Fn { params, ret, body, .. } && exists|x: JsFn|
            #![trigger written_lambda(x)]
            {
                &&& js(out, me, e) == out + written_lambda(x)
                &&& x.params.len() == params.len()
                &&& does(m, g, vis, taken, me, params, ret, *body, x)
            },
{
    if let Node::Fn { params, ret, body, .. } = e {
        let x = lemma_function(m, g, vis, taken, me, params, ret, *body);
        assert(js_params(params) == joined(x.params, ", "@));
        let own = "function("@ + js_params(params);
        let head = out + "function("@ + js_params(params);
        assert(head =~= out + own);
        let b = written(x.body);
        reveal_strlit(") { try { return ");
        reveal_strlit(") { return ");
        reveal_strlit(")");
        reveal_strlit(" { try { return ");
        reveal_strlit(" { return ");
        assert(") { try { return "@ =~= ")"@ + " { try { return "@);
        assert(") { return "@ =~= ")"@ + " { return "@);
        if ret is Option {
            let end = "; } catch (__e) { if (__e instanceof EmelaNone) return { tag: 1, values: [] }; throw __e; } }"@;
            assert(js(head + ") { try { return "@, me, *body) == head + ") { try { return "@ + b);
            lemma_group(out, own, ") { try { return "@, b, end);
            lemma_split(own, ")"@, " { try { return "@, b, end);
        } else {
            assert(js(head + ") { return "@, me, *body) == head + ") { return "@ + b);
            lemma_group(out, own, ") { return "@, b, "; }"@);
            lemma_split(own, ")"@, " { return "@, b, "; }"@);
        }
        assert(js(out, me, e) == out + written_lambda(x));
    }
}

proof fn lemma_split(a: Seq<char>, b: Seq<char>, c: Seq<char>, d: Seq<char>, e: Seq<char>)
    ensures
        a + (b + c) + d + e == (a + b) + c + d + e,
{
    assert(a + (b + c) + d + e =~= (a + b) + c + d + e);
}

} // verus!
