//! Retain/release insertion on small functions.

use emela::ir::{IrArm, IrExpr, IrFunction, IrParam, IrPattern, IrProgram};
use emela::ir_walk::walk;
use emela::rc::elide::strip_release;
use emela::rc::insert::Cx;
use emela::rc::insert_rc_ops;
use emela::types::{BinaryOp, EffectRow, FunctionType, Type};

fn string_fn(params: Vec<Type>) -> FunctionType {
    FunctionType {
        params,
        ret: Box::new(Type::String),
        throws: None,
        effects: EffectRow::default(),
    }
}

fn var(name: &str, ty: Type) -> IrExpr {
    IrExpr::Var {
        name: name.into(),
        ty,
    }
}

fn program(params: Vec<(&str, Type)>, ret: Type, body: IrExpr) -> IrProgram {
    IrProgram {
        functions: vec![IrFunction {
            name: "f".into(),
            params: params
                .into_iter()
                .map(|(name, ty)| IrParam {
                    name: name.into(),
                    ty,
                })
                .collect(),
            ret,
            throws: None,
            effects: EffectRow::default(),
            body,
        }],
    }
}

fn count_retains(e: &IrExpr) -> usize {
    walk(e)
        .iter()
        .filter(|x| matches!(x, IrExpr::Retain { .. }))
        .count()
}

fn releases(e: &IrExpr) -> Vec<String> {
    let mut names = Vec::new();
    for x in walk(e) {
        if let IrExpr::Release { name, .. } = x {
            names.push(name.clone());
        }
    }
    names
}

#[test]
fn last_use_call_arg_moves_without_rc_ops() {
    // fn f(s: String) -> String { g(s) } — the argument is s's last use
    // and g cannot throw: the retain/release pair is elided (A10).
    let body = IrExpr::Call {
        callee: Box::new(IrExpr::FunctionRef {
            name: "g".into(),
            sig: string_fn(vec![Type::String]),
        }),
        args: vec![var("s", Type::String)],
        ret: Type::String,
    };
    let mut p = program(vec![("s", Type::String)], Type::String, body);
    insert_rc_ops(&mut p);
    let body = &p.functions[0].body;
    assert_eq!(count_retains(body), 0, "the last use moves: {body:?}");
    assert!(releases(body).is_empty(), "the pair is elided: {body:?}");
    // The bare read transfers ownership into the call.
    let IrExpr::Let { value, .. } = body else {
        panic!("expected a transfer let, got {body:?}");
    };
    let IrExpr::Call { args, .. } = value.as_ref() else {
        panic!("expected the call, got {value:?}");
    };
    assert!(matches!(&args[0], IrExpr::Var { name, .. } if name == "s"));
}

#[test]
fn no_move_when_the_callee_can_throw() {
    // fn f(s: String) -> String { g(s) } with g throwing: an unwind after
    // the move point would double-free, so the pair stays.
    let mut sig = string_fn(vec![Type::String]);
    sig.throws = Some(Box::new(Type::Enum("E".into(), vec![])));
    let body = IrExpr::Call {
        callee: Box::new(IrExpr::FunctionRef {
            name: "g".into(),
            sig,
        }),
        args: vec![var("s", Type::String)],
        ret: Type::String,
    };
    let mut p = program(vec![("s", Type::String)], Type::String, body);
    insert_rc_ops(&mut p);
    let body = &p.functions[0].body;
    assert_eq!(count_retains(body), 1, "{body:?}");
    assert_eq!(releases(body), vec!["s"], "{body:?}");
}

#[test]
fn intrinsic_args_are_borrowed() {
    // fn f(s: String) -> Int { string_length(s) }
    let body = IrExpr::Intrinsic {
        name: "string_length".into(),
        args: vec![var("s", Type::String)],
        ret: Type::Int,
    };
    let mut p = program(vec![("s", Type::String)], Type::Int, body);
    insert_rc_ops(&mut p);
    let body = &p.functions[0].body;
    assert_eq!(count_retains(body), 0, "a borrowed Var is not retained");
    assert_eq!(releases(body), vec!["s"]);
}

#[test]
fn array_push_element_is_owned() {
    // fn f(a: Array<String>, s: String) -> Array<String> { array_push(a, s) }
    let arr = Type::Array(Box::new(Type::String));
    let body = IrExpr::Intrinsic {
        name: "array_push".into(),
        args: vec![var("a", arr.clone()), var("s", Type::String)],
        ret: arr.clone(),
    };
    let mut p = program(
        vec![("a", arr.clone()), ("s", Type::String)],
        arr.clone(),
        body,
    );
    insert_rc_ops(&mut p);
    let body = &p.functions[0].body;
    // The element arg was the owned position; as s's last use it moves.
    // `a`'s last use is a borrow, so its release stays.
    assert_eq!(count_retains(body), 0, "{body:?}");
    assert_eq!(releases(body), vec!["a"], "{body:?}");
}

#[test]
fn nested_concat_temporary_is_released() {
    // fn f(a: String, b: String, c: String) -> String { (a ++ b) ++ c }
    let body = IrExpr::Concat {
        left: Box::new(IrExpr::Concat {
            left: Box::new(var("a", Type::String)),
            right: Box::new(var("b", Type::String)),
        }),
        right: Box::new(var("c", Type::String)),
    };
    let mut p = program(
        vec![
            ("a", Type::String),
            ("b", Type::String),
            ("c", Type::String),
        ],
        Type::String,
        body,
    );
    insert_rc_ops(&mut p);
    let body = &p.functions[0].body;
    // The inner concat is hoisted to a $rc temp and released after the outer.
    let rel = releases(body);
    assert!(
        rel.iter().any(|n| n.starts_with("$rc")),
        "inner concat temp released: {rel:?}"
    );
    assert_eq!(rel.len(), 4, "temp + three params: {rel:?}");
    assert_eq!(count_retains(body), 0, "concat borrows its operands");
}

#[test]
fn if_releases_in_both_branches() {
    // fn f(s: String, c: Bool) -> String { if c { s } else { "x" } }
    let body = IrExpr::If {
        cond: Box::new(var("c", Type::Bool)),
        then: Box::new(var("s", Type::String)),
        els: Box::new(IrExpr::String("x".into())),
        ty: Type::String,
    };
    let mut p = program(
        vec![("s", Type::String), ("c", Type::Bool)],
        Type::String,
        body,
    );
    insert_rc_ops(&mut p);
    let body = &p.functions[0].body;
    // The then-branch's return is s's last use there and moves; the
    // else-branch never uses s and keeps its release.
    assert_eq!(
        releases(body),
        vec!["s"],
        "one release remains, in the else branch: {body:?}"
    );
    assert_eq!(count_retains(body), 0, "{body:?}");
}

#[test]
fn match_scrutinee_temp_released_in_each_arm_and_bindings_borrow() {
    // fn f() -> String { match g() { Some(x) -> x, None -> "d" } }
    let opt = Type::Enum("Option".into(), vec![Type::String]);
    let body = IrExpr::Match {
        scrutinee: Box::new(IrExpr::Call {
            callee: Box::new(IrExpr::FunctionRef {
                name: "g".into(),
                sig: FunctionType {
                    params: vec![],
                    ret: Box::new(opt.clone()),
                    throws: None,
                    effects: EffectRow::default(),
                },
            }),
            args: vec![],
            ret: opt.clone(),
        }),
        arms: vec![
            IrArm {
                pattern: IrPattern::Variant {
                    variant: "Some".into(),
                    tag: 0,
                    bindings: vec![Some(("x".into(), Type::String))],
                },
                guard: None,
                body: var("x", Type::String),
            },
            IrArm {
                pattern: IrPattern::Wildcard { binding: None },
                guard: None,
                body: IrExpr::String("d".into()),
            },
        ],
        ty: Type::String,
    };
    let mut p = program(vec![], Type::String, body);
    insert_rc_ops(&mut p);
    let body = &p.functions[0].body;
    let rel = releases(body);
    assert_eq!(
        rel.len(),
        2,
        "scrutinee temp released once per arm: {rel:?}"
    );
    assert!(rel.iter().all(|n| n.starts_with("$rc")), "{rel:?}");
    assert_eq!(
        count_retains(body),
        1,
        "the payload binding is retained only when returned"
    );
}

#[test]
fn tail_self_call_releases_before_the_jump() {
    // fn f(s: String, n: Int) -> Unit { tail_self_call(g(s), n - 1) }
    let body = IrExpr::TailSelfCall {
        args: vec![
            IrExpr::Call {
                callee: Box::new(IrExpr::FunctionRef {
                    name: "g".into(),
                    sig: string_fn(vec![Type::String]),
                }),
                args: vec![var("s", Type::String)],
                ret: Type::String,
            },
            IrExpr::Binary {
                op: BinaryOp::Sub,
                ty: Type::Int,
                left: Box::new(var("n", Type::Int)),
                right: Box::new(IrExpr::Int(1)),
            },
        ],
        ty: Type::Unit,
    };
    let mut p = program(
        vec![("s", Type::String), ("n", Type::Int)],
        Type::Unit,
        body,
    );
    insert_rc_ops(&mut p);
    let body = &p.functions[0].body;
    // s's last use is g's argument (g cannot throw) and moves, so no
    // release remains above the jump; the args stay atomized.
    assert!(releases(body).is_empty(), "{body:?}");
    assert_eq!(count_retains(body), 0, "{body:?}");
    let mut ok = true;
    let mut jumps = 0;
    for e in walk(body) {
        if let IrExpr::TailSelfCall { args, .. } = e {
            jumps += 1;
            ok &= args
                .iter()
                .all(|a| matches!(a, IrExpr::Var { .. } | IrExpr::Int(_)));
        }
    }
    assert_eq!(jumps, 1);
    assert!(ok, "tail-call args are atomized");
}

#[test]
fn shadowed_bindings_are_renamed_apart() {
    // fn f(s: String) -> String { let s = g(s); s } — g throws, so no
    // move fires and both bindings keep their distinct releases.
    let mut sig = string_fn(vec![Type::String]);
    sig.throws = Some(Box::new(Type::Enum("E".into(), vec![])));
    let body = IrExpr::Let {
        name: "s".into(),
        value_ty: Type::String,
        value: Box::new(IrExpr::Call {
            callee: Box::new(IrExpr::FunctionRef {
                name: "g".into(),
                sig,
            }),
            args: vec![var("s", Type::String)],
            ret: Type::String,
        }),
        next: Box::new(var("s", Type::String)),
    };
    let mut p = program(vec![("s", Type::String)], Type::String, body);
    insert_rc_ops(&mut p);
    let body = &p.functions[0].body;
    // The outer `s` cannot move (its last use feeds the throwing call) and
    // keeps its release under its own name; the shadowing `s#1` is a
    // distinct binding, whose tail return moves (the move point is after
    // the only unwind risk).
    assert_eq!(
        releases(body),
        vec!["s"],
        "the outer param's release survives under its own name: {body:?}"
    );
    assert_eq!(count_retains(body), 1, "only the call argument: {body:?}");
}

#[test]
fn throw_atomizes_and_releases_before_the_raise() {
    // fn f(s: String) -> Int throws E { let x = g(s); throw MkE(x) }
    let e_ty = Type::Enum("E".into(), vec![]);
    let body = IrExpr::Let {
        name: "x".into(),
        value_ty: Type::String,
        value: Box::new(IrExpr::Call {
            callee: Box::new(IrExpr::FunctionRef {
                name: "g".into(),
                sig: string_fn(vec![Type::String]),
            }),
            args: vec![var("s", Type::String)],
            ret: Type::String,
        }),
        next: Box::new(IrExpr::Throw {
            value: Box::new(IrExpr::EnumValue {
                ty: e_ty.clone(),
                variant: "MkE".into(),
                tag: 0,
                payload: vec![var("x", Type::String)],
            }),
        }),
    };
    let mut p = program(vec![("s", Type::String)], Type::Int, body);
    insert_rc_ops(&mut p);
    let body = &p.functions[0].body;
    let rel = releases(body);
    assert!(
        rel.contains(&"x".to_string()) && rel.contains(&"s".to_string()),
        "both bindings release on the throw path: {rel:?}"
    );
    // The throw's operand is a var (atomized), so the releases above it
    // cannot invalidate an unevaluated operand.
    for e in walk(body) {
        if let IrExpr::Throw { value } = e {
            assert!(matches!(value.as_ref(), IrExpr::Var { .. }));
        }
    }
}

#[test]
fn lambda_bodies_release_their_own_params() {
    // fn f() -> Function { fn(s: String) -> String { s } }
    let lambda = IrExpr::Fn {
        params: vec![IrParam {
            name: "s".into(),
            ty: Type::String,
        }],
        ret: Type::String,
        throws: None,
        effects: EffectRow::default(),
        captures: vec![],
        body: Box::new(var("s", Type::String)),
    };
    let mut p = program(vec![], Type::OpaqueFunction, lambda);
    insert_rc_ops(&mut p);
    let body = &p.functions[0].body;
    let IrExpr::Fn { body: inner, .. } = body else {
        panic!("expected the lambda at the tail");
    };
    // The returned param is its last use: the pair is elided (A10).
    assert!(releases(inner).is_empty(), "{inner:?}");
    assert_eq!(count_retains(inner), 0, "{inner:?}");
    assert!(matches!(
        strip_transfer(inner),
        IrExpr::Var { name, .. } if name == "s"
    ));
}

/// Unwraps the `let $rc = v; %$rc` transfer shell if present.
fn strip_transfer(e: &IrExpr) -> &IrExpr {
    if let IrExpr::Let { value, next, .. } = e {
        if matches!(next.as_ref(), IrExpr::Var { name, .. } if name.starts_with("$rc")) {
            return value;
        }
    }
    e
}

fn catching(body: IrExpr, caught: IrExpr) -> IrExpr {
    IrExpr::Try {
        body: Box::new(body),
        arms: vec![IrArm {
            pattern: IrPattern::Wildcard { binding: None },
            guard: None,
            body: caught,
        }],
        ty: Type::Int,
        err_name: None,
    }
}

fn jump() -> IrExpr {
    IrExpr::TailSelfCall {
        args: vec![],
        ty: Type::Int,
    }
}

fn let_string(name: &str, next: IrExpr) -> IrExpr {
    IrExpr::Let {
        name: name.into(),
        value_ty: Type::String,
        value: Box::new(IrExpr::String("v".into())),
        next: Box::new(next),
    }
}

// The releases right above the jump in a catch arm, from the outermost.
fn before_the_jump(e: &IrExpr) -> Vec<String> {
    for x in walk(e) {
        let IrExpr::Try { arms, .. } = x else {
            continue;
        };
        let mut names = Vec::new();
        let mut at = &arms[0].body;
        while let IrExpr::Release { name, next, .. } = at {
            names.push(name.clone());
            at = next;
        }
        if matches!(at, IrExpr::TailSelfCall { .. }) {
            return names;
        }
    }
    panic!("no jump: {e:?}");
}

#[test]
fn a_jump_out_of_a_catch_arm_releases_every_enclosing_binding() {
    // fn f(a: String) { let b = "v"; try { 1 } catch { _ -> f() } }
    let mut p = program(
        vec![("a", Type::String)],
        Type::Int,
        let_string("b", catching(IrExpr::Int(1), jump())),
    );
    insert_rc_ops(&mut p);
    let mut names = before_the_jump(&p.functions[0].body);
    names.retain(|name| !name.starts_with('$'));
    names.sort();
    assert_eq!(names, vec!["a", "b"], "{:?}", p.functions[0].body);
}

#[test]
fn stripping_undoes_the_releases_inside_nested_catch_arms() {
    // try { 1 } catch { _ -> try { 2 } catch { _ -> f() } }
    let inner = catching(IrExpr::Int(2), jump());
    let e = catching(IrExpr::Int(1), inner);
    let mut cx = Cx::new();
    let released = cx.release_at_tails(e, &"x".to_string(), &Type::String);
    assert_eq!(releases(&released), vec!["x", "x"], "{released:?}");
    let stripped = strip_release(released, "x");
    assert!(releases(&stripped).is_empty(), "{stripped:?}");
}

#[test]
fn a_binding_inside_an_argument_is_released_once() {
    // fn f(s: String) -> Int { string_length({ let x = "a" ++ s; x ++ x }) }
    let concat = |left: IrExpr, right: IrExpr| IrExpr::Concat {
        left: Box::new(left),
        right: Box::new(right),
    };
    let body = IrExpr::Intrinsic {
        name: "string_length".into(),
        args: vec![IrExpr::Let {
            name: "x".into(),
            value_ty: Type::String,
            value: Box::new(concat(
                IrExpr::String("a".into()),
                var("s", Type::String),
            )),
            next: Box::new(concat(var("x", Type::String), var("x", Type::String))),
        }],
        ret: Type::Int,
    };
    let mut p = program(vec![("s", Type::String)], Type::Int, body);
    insert_rc_ops(&mut p);
    let names = releases(&p.functions[0].body);
    assert_eq!(names.iter().filter(|n| *n == "x").count(), 1, "{names:?}");
    assert_eq!(names.iter().filter(|n| *n == "s").count(), 1, "{names:?}");
}

fn concat(left: IrExpr, right: IrExpr) -> IrExpr {
    IrExpr::Concat {
        left: Box::new(left),
        right: Box::new(right),
    }
}

#[test]
fn every_temporary_is_released_once_or_read_once() {
    // fn f(a: String, b: String) -> String {
    //     let x = (a ++ b) ++ a
    //     string_length(x ++ "!")
    //     x
    // }
    let a = || var("a", Type::String);
    let b = || var("b", Type::String);
    let x = || var("x", Type::String);
    let body = IrExpr::Let {
        name: "x".into(),
        value_ty: Type::String,
        value: Box::new(concat(concat(a(), b()), a())),
        next: Box::new(IrExpr::Let {
            name: "n".into(),
            value_ty: Type::Int,
            value: Box::new(IrExpr::Intrinsic {
                name: "string_length".into(),
                args: vec![concat(x(), IrExpr::String("!".into()))],
                ret: Type::Int,
            }),
            next: Box::new(x()),
        }),
    };
    let params = vec![("a", Type::String), ("b", Type::String)];
    let mut p = program(params, Type::String, body);
    insert_rc_ops(&mut p);
    let body = &p.functions[0].body;
    let mut temporaries = Vec::new();
    let mut reads = Vec::new();
    let mut retained = Vec::new();
    for e in walk(body) {
        match e {
            IrExpr::Let { name, value_ty, .. } if name.starts_with("$rc") => {
                temporaries.push((name.clone(), *value_ty == Type::String));
            }
            IrExpr::Var { name, .. } => reads.push(name.clone()),
            IrExpr::Retain { value } => {
                if let IrExpr::Var { name, .. } = value.as_ref() {
                    retained.push(name.clone());
                }
            }
            _ => {}
        }
    }
    assert!(temporaries.iter().filter(|(_, heap)| *heap).count() >= 2);
    let released = releases(body);
    for (name, heap) in &temporaries {
        let releases = released.iter().filter(|n| *n == name).count();
        let reads = reads.iter().filter(|n| *n == name).count();
        assert!(!retained.contains(name), "{name} in {body:?}");
        if *heap && releases == 1 {
            continue;
        }
        assert_eq!((releases, reads), (0, 1), "{name} in {body:?}");
    }
    for name in ["a", "b", "x"] {
        // Each is released once, or its last use is a move.
        assert!(released.iter().filter(|n| *n == name).count() <= 1);
    }
}

#[test]
fn temporaries_have_names_of_their_own() {
    // fn f(s: String) -> Int { string_length(s ++ (s ++ (s ++ s))) }
    let s = || var("s", Type::String);
    let body = IrExpr::Intrinsic {
        name: "string_length".into(),
        args: vec![concat(s(), concat(s(), concat(s(), s())))],
        ret: Type::Int,
    };
    let mut p = program(vec![("s", Type::String)], Type::Int, body);
    insert_rc_ops(&mut p);
    let mut names = Vec::new();
    for e in walk(&p.functions[0].body) {
        if let IrExpr::Let { name, .. } = e {
            assert!(!names.contains(name), "{name} twice");
            names.push(name.clone());
        }
    }
    assert!(names.len() >= 3, "{names:?}");
}
