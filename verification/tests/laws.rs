//! The laws of the library on concrete values.

use emela::fmt::lines::clean;
use emela::ir::{IrExpr, IrFunction, IrParam, IrProgram};
use emela::ir_walk::walk;
use emela::lexer::{lex, TokenKind};
use emela::rc::insert_rc_ops;
use emela::subst::{infer_subst, subst_type, Bindings};
use emela::tail::rewrite_self_tail_calls;
use emela::types::{EffectRow, FunctionType, Type};

fn row(names: &[&str]) -> EffectRow {
    EffectRow::sorted(names.iter().map(|n| n.to_string()).collect())
}

#[test]
fn rows_are_sorted_sets() {
    assert_eq!(row(&["Net", "Fs", "Net"]).effects, vec!["Fs", "Net"]);
    assert_eq!(row(&["Net", "Fs"]), row(&["Fs", "Net", "Fs"]));
}

#[test]
fn a_union_is_the_least_row_above_both() {
    let (a, b) = (row(&["Fs", "Io"]), row(&["Io", "Net"]));
    let mut union = a.copy();
    union.union(&b);
    assert_eq!(union.effects, vec!["Fs", "Io", "Net"]);
    assert!(a.is_subset_of(&a));
    assert!(a.is_subset_of(&union));
    assert!(b.is_subset_of(&union));
    assert!(!union.is_subset_of(&a));
    assert!(union.is_subset_of(&row(&["Fs", "Io", "Log", "Net"])));
}

fn type_var(name: &str) -> Type {
    Type::Var(name.to_string())
}

#[test]
fn type_arguments_are_recovered_from_a_specialization() {
    // (Array<T>, (U) -> Pair<T, U>)
    let declared = Type::Function(FunctionType {
        params: vec![Type::Array(Box::new(type_var("T"))), type_var("U")],
        ret: Box::new(Type::Enum(
            "Pair".to_string(),
            vec![type_var("T"), type_var("U")],
        )),
        throws: None,
        effects: row(&[]),
    });
    let mut with = Bindings::none();
    with.put("T", Type::Int);
    with.put("U", Type::String);
    let actual = subst_type(&declared, &with);
    let mut found = Bindings::none();
    infer_subst(&mut found, &declared, &actual);
    assert_eq!(found.get("T"), Some(&Type::Int));
    assert_eq!(found.get("U"), Some(&Type::String));
    assert_eq!(subst_type(&declared, &found), actual);
    // A concrete type is its own specialization.
    assert_eq!(subst_type(&actual, &found), actual);
}

#[test]
fn a_never_binding_gives_way_to_a_concrete_one() {
    let mut found = Bindings::none();
    infer_subst(&mut found, &type_var("T"), &Type::Never);
    assert_eq!(found.get("T"), Some(&Type::Never));
    infer_subst(&mut found, &type_var("T"), &Type::Int);
    assert_eq!(found.get("T"), Some(&Type::Int));
    infer_subst(&mut found, &type_var("T"), &Type::Bool);
    assert_eq!(found.get("T"), Some(&Type::Int));
}

#[test]
fn tokens_stand_in_source_order() {
    let source = "fn f(a: Int) -> Int {\n  a + 1 -- more\n}\n\"s\" 'c' 1.5 @x\n";
    let (tokens, errors) = lex("a.emel", source);
    assert!(errors.is_empty());
    let (eof, before) = tokens.split_last().expect("an end");
    assert!(matches!(eof.kind, TokenKind::Eof));
    let mut end = 0;
    for t in before {
        assert!(end <= t.span.start && t.span.start < t.span.end);
        end = t.span.end;
    }
    assert!(end <= source.len());
}

#[test]
fn identifiers_hold_no_made_up_characters() {
    let (tokens, errors) = lex("a.emel", "a$b c#1 _x9");
    let names: Vec<String> = tokens
        .iter()
        .filter_map(|t| match &t.kind {
            TokenKind::Ident(name) => Some(name.clone()),
            _ => None,
        })
        .collect();
    assert_eq!(names, vec!["a", "b", "c", "_x9"]);
    assert_eq!(errors.len(), 2);
}

#[test]
fn cleaned_lines_hold_no_trailing_space() {
    assert_eq!(clean("a \t\n\n  b  \r\n\n\n"), "a\n\n  b\n");
    assert_eq!(clean("\n\n"), "");
    assert_eq!(clean("a"), "a\n");
}

fn call(name: &str, arg: IrExpr) -> IrExpr {
    IrExpr::Call {
        callee: Box::new(IrExpr::FunctionRef {
            name: name.to_string(),
            sig: FunctionType {
                params: vec![Type::String],
                ret: Box::new(Type::String),
                throws: None,
                effects: row(&[]),
            },
        }),
        args: vec![arg],
        ret: Type::String,
    }
}

fn read(name: &str) -> IrExpr {
    IrExpr::Var {
        name: name.to_string(),
        ty: Type::String,
    }
}

fn function(body: IrExpr) -> IrProgram {
    let param = |name: &str, ty: Type| IrParam {
        name: name.to_string(),
        ty,
    };
    IrProgram {
        functions: vec![IrFunction {
            name: "f".to_string(),
            params: vec![param("s", Type::String), param("c", Type::Bool)],
            ret: Type::String,
            throws: None,
            effects: row(&[]),
            body,
        }],
    }
}

fn count(e: &IrExpr, wanted: fn(&IrExpr) -> bool) -> usize {
    walk(e).into_iter().filter(|x| wanted(x)).count()
}

#[test]
fn counted_functions_keep_their_signature() {
    let branch = IrExpr::If {
        cond: Box::new(IrExpr::Var {
            name: "c".to_string(),
            ty: Type::Bool,
        }),
        then: Box::new(call("g", read("s"))),
        els: Box::new(IrExpr::String("x".to_string())),
        ty: Type::String,
    };
    let mut p = function(branch);
    insert_rc_ops(&mut p);
    let f = &p.functions[0];
    assert_eq!(f.name, "f");
    assert_eq!(f.params[0].ty, Type::String);
    assert_eq!(f.ret, Type::String);
    assert_eq!(f.body.ty(), Type::String);
    // The branch that uses `s` moves it; the other releases it.
    let is_s = |x: &IrExpr| matches!(x, IrExpr::Release { name, .. } if name == "s");
    assert_eq!(count(&f.body, is_s), 1);
}

#[test]
fn a_retain_goes_only_with_a_release() {
    // Both uses of `s` are calls: the first retains, the last moves.
    let twice = IrExpr::Let {
        name: "t".to_string(),
        value_ty: Type::String,
        value: Box::new(call("g", read("s"))),
        next: Box::new(call("g", read("s"))),
    };
    let mut p = function(twice);
    insert_rc_ops(&mut p);
    let body = &p.functions[0].body;
    let retain_s = |x: &IrExpr| {
        matches!(x, IrExpr::Retain { value } if matches!(value.as_ref(), IrExpr::Var { name, .. } if name == "s"))
    };
    let release_s = |x: &IrExpr| matches!(x, IrExpr::Release { name, .. } if name == "s");
    // One +1 for the first call, and the parameter's own for the last.
    assert_eq!((count(body, retain_s), count(body, release_s)), (1, 0));
}

#[test]
fn jumps_have_the_type_of_their_calls() {
    let mut p = function(call("f", read("s")));
    let ty = p.functions[0].body.ty();
    p = rewrite_self_tail_calls(p);
    assert!(matches!(
        p.functions[0].body,
        IrExpr::TailSelfCall { .. }
    ));
    assert_eq!(p.functions[0].body.ty(), ty);
    // A call under another call is not in tail position.
    let mut q = function(call("g", call("f", read("s"))));
    q = rewrite_self_tail_calls(q);
    assert_eq!(
        count(&q.functions[0].body, |x| matches!(
            x,
            IrExpr::TailSelfCall { .. }
        )),
        0
    );
}
