//! The linter, on syntax trees that are built by hand.

use std::sync::Arc;

use emela::ast::{
    Block, BlockItem, EnumDecl, EnumVariant, Expr, Function, ImplDecl, Import, Param, Program,
    TraitDecl, TraitMethodSig,
};
use emela::error::{Diagnostic, Severity};
use emela::lint::{conclude, is_pascal_case, is_snake_case, lint};
use emela::source::{SourceFile, Span};
use emela::typed::{TypedFunction, TypedProgram};
use emela::types::{EffectRow, Type};

fn at(label: &str, start: usize) -> Span {
    let file = Arc::new(SourceFile {
        label: label.to_string(),
        source: "x".repeat(200),
    });
    Span {
        file,
        start,
        end: start + 1,
    }
}

fn span(start: usize) -> Span {
    at("a.emel", start)
}

fn row(names: &[&str]) -> EffectRow {
    EffectRow {
        effects: names.iter().map(|n| n.to_string()).collect(),
    }
}

fn param(name: &str, start: usize) -> Param {
    Param {
        name: name.to_string(),
        name_span: span(start),
        ty: Type::Int,
    }
}

fn bind(name: &str, start: usize, value: Expr) -> BlockItem {
    BlockItem::Let {
        name: name.to_string(),
        name_span: span(start),
        ty: None,
        value,
    }
}

fn var(name: &str) -> Expr {
    Expr::Var(name.to_string(), span(0))
}

fn function(name: &str, start: usize, params: Vec<Param>, items: Vec<BlockItem>) -> Function {
    Function {
        name: name.to_string(),
        name_span: span(start),
        is_public: false,
        module_segments: vec![],
        declared_module: None,
        effect_name: None,
        type_params: vec![],
        bounds: vec![],
        params,
        ret: Type::Int,
        throws: None,
        effects: row(&[]),
        body: Block {
            items,
            span: span(start),
        },
        is_test: false,
    }
}

fn program(functions: Vec<Function>) -> Program {
    Program {
        module: None,
        imports: vec![],
        functions,
        externs: vec![],
        enums: vec![],
        records: vec![],
        traits: vec![],
        impls: vec![],
        effects: vec![],
    }
}

fn no_types() -> TypedProgram {
    TypedProgram {
        functions: vec![],
        operators: vec![],
        core_module: "core".to_string(),
    }
}

fn found(p: &Program) -> Vec<Diagnostic> {
    lint(p, &program(vec![]), &no_types(), "a.emel")
}

fn titles(s: &[Diagnostic]) -> Vec<&str> {
    s.iter().map(|d| d.title.as_str()).collect()
}

fn codes(s: &[Diagnostic]) -> Vec<&str> {
    s.iter()
        .map(|d| d.code.as_ref().expect("a rule").as_str())
        .collect()
}

#[test]
fn names_are_told_apart_by_case() {
    assert!(is_snake_case("a_name2"));
    assert!(is_snake_case(""));
    assert!(!is_snake_case("aName"));
    // Upper case is Unicode's, not only ASCII's.
    assert!(!is_snake_case("na\u{00C9}me"));
    assert!(is_snake_case("na\u{00E9}me"));
    assert!(is_pascal_case("Name"));
    assert!(!is_pascal_case("name"));
    assert!(!is_pascal_case("A_name"));
    assert!(!is_pascal_case(""));
    assert!(!is_pascal_case("\u{00C9}tat"));
}

#[test]
fn naming_findings_are_in_source_order() {
    let lambda = Expr::Fn {
        params: vec![param("innerP", 30)],
        ret: Type::Int,
        throws: None,
        effects: row(&[]),
        body: Block {
            items: vec![BlockItem::Expr(var("innerP"))],
            span: span(31),
        },
        span: span(29),
    };
    let mut p = program(vec![function(
        "doIt",
        10,
        vec![param("aB", 15)],
        vec![
            bind("theLet", 20, lambda),
            BlockItem::Expr(var("theLet")),
            BlockItem::Expr(var("aB")),
        ],
    )]);
    p.enums.push(EnumDecl {
        name: "color".to_string(),
        name_span: span(2),
        type_params: vec![],
        module: None,
        lang_item: None,
        variants: vec![EnumVariant {
            name: "Dark_red".to_string(),
            name_span: span(5),
            fields: vec![],
        }],
    });
    let all = found(&p);
    assert_eq!(
        titles(&all),
        vec![
            "enum `color` is not PascalCase",
            "variant `Dark_red` is not PascalCase",
            "function `doIt` is not snake_case",
            "parameter `aB` is not snake_case",
            "binding `theLet` is not snake_case",
            "parameter `innerP` is not snake_case",
        ]
    );
    assert!(all.iter().all(|d| d.severity == Severity::Warning));
    assert_eq!(all[0].code.as_deref(), Some("naming/pascal-case"));
    assert_eq!(all[2].code.as_deref(), Some("naming/snake-case"));
    assert!(all[2]
        .render()
        .starts_with("warning: function `doIt` is not snake_case [naming/snake-case]"));
}

#[test]
fn unused_imports_are_found() {
    let mut p = program(vec![function(
        "f",
        1,
        vec![],
        vec![BlockItem::Expr(Expr::Path {
            segments: vec!["ops".to_string(), "add_one".to_string()],
            span: span(0),
        })],
    )]);
    for (index, name) in ["add_one", "gone"].iter().enumerate() {
        p.imports.push(Import {
            path: vec!["math".to_string(), name.to_string()],
            span: span(index),
        });
    }
    let all = found(&p);
    assert_eq!(codes(&all), vec!["imports/unused"]);
    assert_eq!(
        all[0].primary.as_ref().expect("a place").message,
        "`gone` is imported but never used"
    );
}

#[test]
fn the_error_type_of_a_literal_is_a_use() {
    let lambda = Expr::Fn {
        params: vec![],
        ret: Type::Int,
        throws: Some(Type::Enum("Failure".to_string(), vec![])),
        effects: row(&[]),
        body: Block {
            items: vec![],
            span: span(0),
        },
        span: span(0),
    };
    let mut p = program(vec![function("f", 1, vec![], vec![BlockItem::Expr(lambda)])]);
    p.imports.push(Import {
        path: vec!["lib".to_string(), "Failure".to_string()],
        span: span(0),
    });
    assert!(found(&p).is_empty());
}

#[test]
fn unused_bindings_are_found_but_not_those_of_impls() {
    let p = program(vec![function(
        "f",
        1,
        vec![param("p", 3), param("_q", 5)],
        vec![bind("x", 7, Expr::Int(1, span(8))), bind("_y", 9, var("z"))],
    )]);
    let all = found(&p);
    assert_eq!(
        codes(&all),
        vec!["bindings/unused-param", "bindings/unused-let"]
    );
    assert_eq!(
        all[1].help.as_deref(),
        Some("Prefix the name with `_` to keep it intentionally.")
    );

    let mut p = program(vec![]);
    p.traits.push(TraitDecl {
        name: "Show".to_string(),
        name_span: span(1),
        module: None,
        methods: vec![TraitMethodSig {
            name: "show".to_string(),
            name_span: span(2),
            params: vec![param("a", 3)],
            ret: Type::Int,
            throws: None,
            effects: row(&[]),
            default_body: Some(Block {
                items: vec![bind("t", 4, Expr::Int(1, span(5)))],
                span: span(4),
            }),
        }],
    });
    p.impls.push(ImplDecl {
        trait_name: "Show".to_string(),
        trait_span: span(6),
        target: Type::Int,
        target_span: span(7),
        type_params: vec![],
        bounds: vec![],
        module: None,
        methods: vec![function(
            "show",
            8,
            vec![param("a", 9)],
            vec![bind("u", 10, Expr::Int(1, span(11)))],
        )],
    });
    // Parameters of trait and impl methods are not the author's choice.
    assert_eq!(
        codes(&found(&p)),
        vec!["bindings/unused-let", "bindings/unused-let"]
    );
}

#[test]
fn over_declared_effects_are_found_in_the_file_only() {
    let mut elsewhere = function("g", 1, vec![], vec![]);
    elsewhere.name_span = at("b.emel", 1);
    let merged = program(vec![elsewhere, function("f", 4, vec![], vec![])]);
    let mut typed = no_types();
    for used in [&["Io"][..], &["Io"][..]] {
        typed.functions.push(TypedFunction {
            params: vec![],
            ret: Type::Int,
            throws: None,
            effects: row(&["Fs", "Io", "Net"]),
            body_effects: row(used),
        });
    }
    let all = lint(&program(vec![]), &merged, &typed, "a.emel");
    assert_eq!(codes(&all), vec!["effects/over-declared"]);
    assert_eq!(
        all[0].primary.as_ref().expect("a place").message,
        "`f` declares `Fs`, `Net` in `uses { ... }`, but its body does not use them"
    );
}

#[test]
fn lint_runs_end_by_their_findings() {
    assert!(conclude(0, 0).is_ok());
    assert_eq!(
        conclude(2, 5).unwrap_err().message(),
        "2 file(s) failed to lint"
    );
    assert_eq!(conclude(0, 1).unwrap_err().message(), "1 warning emitted");
    assert_eq!(conclude(0, 3).unwrap_err().message(), "3 warnings emitted");
}
