//! What the commands decide.

use std::sync::Arc;

use emela::ast::{Block, BlockItem, Expr, Function, Import, Program};
use emela::backend::{ArtifactKind, EmitMode, Tier};
use emela::driver::{
    backends, build, canonical_backend, check_dev_reachability, check_source, collect_errors,
    compile_frontend, compile_source, compile_to_ir, emit_mode, ir_source, merge_prelude,
    note_tier, reject_library, reject_printing, reject_run_backend, reject_run_flags,
    requires_main, select_backend, strip_tests, Builtin, Checked, DEFAULT_BACKEND,
};
use emela::error::{normalize_errors, Diagnostic, Error};
use emela::imports::{
    add_dependency, add_package, locate, resolve_imports, unknown_module, Link, Parsed, Target,
    Unit,
};
use emela::ir::IrProgram;
use emela::plugin::is_descriptor_path;
use emela::source::{SourceFile, Span};
use emela::typed::{TypedFunction, TypedProgram};
use emela::types::{EffectRow, Type};

fn at(label: &str, start: usize) -> Span {
    let file = Arc::new(SourceFile {
        label: label.to_string(),
        source: "x".repeat(100),
    });
    Span {
        file,
        start,
        end: start + 1,
    }
}

fn function(name: &str, path: &[&str], items: Vec<BlockItem>) -> Function {
    Function {
        name: name.to_string(),
        name_span: at("a", 0),
        is_public: true,
        module_segments: path.iter().map(|s| s.to_string()).collect(),
        declared_module: None,
        effect_name: None,
        type_params: vec![],
        bounds: vec![],
        params: vec![],
        ret: Type::Int,
        throws: None,
        effects: EffectRow { effects: vec![] },
        body: Block {
            items,
            span: at("a", 0),
        },
        is_test: false,
    }
}

fn program(functions: Vec<Function>) -> Program {
    Program {
        module: None,
        imports: vec![],
        functions,
        externs: vec![],
        enums: vec![],
        records: vec![],
        traits: vec![],
        impls: vec![],
        effects: vec![],
    }
}

fn typed(p: &Program) -> TypedProgram {
    TypedProgram {
        functions: p
            .functions
            .iter()
            .map(|_| TypedFunction {
                params: vec![],
                ret: Type::Int,
                throws: None,
                effects: EffectRow { effects: vec![] },
                body_effects: EffectRow { effects: vec![] },
            })
            .collect(),
        operators: vec![],
        core_module: "core".to_string(),
    }
}

fn path(segments: &[&str]) -> Expr {
    Expr::Path {
        segments: segments.iter().map(|s| s.to_string()).collect(),
        span: at("a", 0),
    }
}

fn call(e: Expr) -> BlockItem {
    BlockItem::Expr(Expr::Call {
        callee: Box::new(e),
        args: vec![],
        span: at("a", 0),
    })
}

fn number(n: i32) -> BlockItem {
    BlockItem::Expr(Expr::Int(n, at("a", 0)))
}

fn checked(p: Program) -> Checked {
    let typed = typed(&p);
    Checked {
        program: p,
        typed,
        errors: vec![],
    }
}

fn failed(messages: &[&str]) -> Checked {
    let mut c = checked(program(vec![]));
    c.errors = messages.iter().map(|m| Error::new(m.to_string())).collect();
    c
}

fn messages(s: &[Error]) -> Vec<&str> {
    s.iter().map(|e| e.message()).collect()
}

#[test]
fn backends_have_names_and_aliases() {
    assert_eq!(DEFAULT_BACKEND, "js-node");
    assert_eq!(canonical_backend("js"), "js-node");
    assert_eq!(canonical_backend("js-bun"), "js-node");
    assert_eq!(canonical_backend("wasm"), "wasm-wasi");
    assert_eq!(canonical_backend("other"), "other");
    assert_eq!(select_backend("wasm").unwrap(), Builtin::Wasm);
    assert_eq!(
        select_backend("other").unwrap_err().message(),
        "unknown backend `other`; available backends: wasm-wasi, js-node"
    );
    let all: Vec<(&str, Tier)> = backends().iter().map(|b| (b.name(), b.tier())).collect();
    assert_eq!(
        all,
        vec![("wasm-wasi", Tier::Tier1), ("js-node", Tier::Tier2)]
    );
    assert!(note_tier("wasm-wasi", Tier::Tier1).is_none());
    assert_eq!(
        note_tier("js-node", Tier::Tier2).as_deref(),
        Some("note: backend `js-node` is Tier 2 (build + smoke only)")
    );
    assert!(is_descriptor_path("x/backend.json", false));
    assert!(is_descriptor_path("x", true));
    assert!(!is_descriptor_path("json", false));
}

#[test]
fn flags_are_rejected_where_they_mean_nothing() {
    assert_eq!(emit_mode(None).unwrap(), EmitMode::Default);
    assert_eq!(emit_mode(Some("default")).unwrap(), EmitMode::Default);
    assert_eq!(emit_mode(Some("text")).unwrap(), EmitMode::Text);
    assert_eq!(
        emit_mode(Some("wat")).unwrap_err().message(),
        "unknown --emit value `wat` (expected `default` or `text`)"
    );
    assert!(reject_library(false, "build").is_ok());
    assert_eq!(
        reject_library(true, "build").unwrap_err().message(),
        "`--library` is only valid for `check`, not `build`"
    );
    assert!(reject_run_flags(false, false).is_ok());
    assert_eq!(
        reject_run_flags(true, true).unwrap_err().message(),
        "`-o`/`--output` is not valid for `run`"
    );
    assert_eq!(
        reject_run_flags(false, true).unwrap_err().message(),
        "`--emit` is not valid for `run`"
    );
    assert!(reject_run_backend(None).is_ok());
    assert!(reject_run_backend(Some("wasm")).is_ok());
    assert_eq!(
        reject_run_backend(Some("js")).unwrap_err().message(),
        "`run` executes WebAssembly; backend `js` is not supported (use `wasm-wasi`)"
    );
    assert!(reject_printing(&ArtifactKind::JsSource).is_ok());
    assert_eq!(
        reject_printing(&ArtifactKind::WasmBinary)
            .unwrap_err()
            .message(),
        "binary artifact; pass -o FILE to write it to disk"
    );
}

#[test]
fn errors_are_sorted_and_told_once() {
    let place = |start: usize, title: &str, note: &str| {
        Error::diagnostic(
            Diagnostic::new(title.to_string()).label(at("a", start), note.to_string()),
        )
    };
    let all = normalize_errors(vec![
        place(9, "Late", "n"),
        place(2, "B", "x"),
        place(2, "A", "y"),
        place(2, "B", "z"),
        place(2, "B", "x"),
        Error::new("no place".to_string()),
    ]);
    assert_eq!(messages(&all), vec!["no place", "A", "B", "B", "Late"]);
    let all = collect_errors(
        vec![Error::new("b".to_string())],
        vec![Error::new("a".to_string())],
        Some(Error::new("c".to_string())),
        vec![Error::new("a".to_string())],
    );
    assert_eq!(messages(&all), vec!["a", "b", "c"]);
    assert!(requires_main(true, &vec![]));
    assert!(!requires_main(true, &all));
    assert!(!requires_main(false, &vec![]));
}

#[test]
fn frontends_end_with_their_errors() {
    assert!(check_source(failed(&[])).is_ok());
    assert_eq!(
        check_source(failed(&["one", "two"])).unwrap_err().message(),
        "one"
    );
    let Err(all) = compile_frontend(failed(&["one", "two"])) else {
        panic!("expected an error");
    };
    assert_eq!(all.message(), "one\n\ntwo");
    assert_eq!(ir_source(failed(&["one"])).unwrap_err().message(), "one");
    assert_eq!(
        compile_source(failed(&["one"]), "js", EmitMode::Default)
            .unwrap_err()
            .message(),
        "one"
    );
}

#[test]
fn sources_compile_without_their_tests() {
    let make = || {
        let mut test = function("a_test", &[], vec![number(1)]);
        test.is_test = true;
        program(vec![test, function("main", &[], vec![number(7)])])
    };
    let text = ir_source(checked(make())).unwrap();
    assert!(text.contains("main"), "{text}");
    assert!(!text.contains("a_test"), "{text}");
    let js = compile_source(checked(make()), "js", EmitMode::Default).unwrap();
    assert_eq!(js.kind, ArtifactKind::JsSource);
    let wasm = compile_source(checked(make()), "wasm", EmitMode::Default).unwrap();
    assert_eq!(wasm.kind, ArtifactKind::WasmBinary);
    assert_eq!(&wasm.bytes[..4], b"\0asm");
    assert_eq!(
        compile_source(checked(make()), "c", EmitMode::Default)
            .unwrap_err()
            .message(),
        "unknown backend `c`; available backends: wasm-wasi, js-node"
    );
    let none = IrProgram { functions: vec![] };
    assert_eq!(
        build(&none, "wasm", EmitMode::Default).unwrap_err().message(),
        "wasm backend requires a `main` function"
    );
    let (p, t) = {
        let p = make();
        let t = typed(&p);
        strip_tests(p, t)
    };
    assert_eq!(p.functions.len(), 1);
    assert_eq!(t.functions.len(), 1);
}

#[test]
fn dev_dependencies_stay_out_of_artifacts() {
    let roots = vec!["check".to_string()];
    let make = |items: Vec<BlockItem>| {
        program(vec![
            function("assert_it", &["check", "base"], vec![number(1)]),
            function("helper", &[], vec![call(path(&["check", "base", "assert_it"]))]),
            function("main", &[], items),
        ])
    };
    // A helper that `main` does not reach may use a dev dependency.
    assert!(check_dev_reachability(&make(vec![number(1)]), &roots).is_ok());
    let p = make(vec![call(Expr::Var("helper".to_string(), at("a", 0)))]);
    assert!(check_dev_reachability(&p, &vec![]).is_ok());
    let e = check_dev_reachability(&p, &roots).unwrap_err();
    assert_eq!(
        e.message(),
        "`check.base.assert_it` is provided by dev-dependency import root `check` and must not be \
         reachable from build artifacts; call it from a `@test` fn only, or move the dependency to \
         `[dependencies]`"
    );
    assert!(compile_to_ir(checked(p), &roots).is_err());
    assert!(compile_to_ir(checked(make(vec![number(1)])), &roots).is_ok());
}

#[test]
fn the_prelude_comes_behind_the_program() {
    let (p, e) = merge_prelude(
        program(vec![function("main", &[], vec![])]),
        program(vec![function("core_fn", &[], vec![])]),
        vec![],
    );
    assert!(e.is_none());
    let names: Vec<&str> = p.functions.iter().map(|f| f.name.as_str()).collect();
    assert_eq!(names, vec!["main", "core_fn"]);
    let (p, e) = merge_prelude(
        program(vec![]),
        program(vec![function("core_fn", &[], vec![])]),
        vec![Error::new("broken".to_string())],
    );
    assert_eq!(e.expect("an error").message(), "broken");
    assert!(p.functions.is_empty());
}

fn import(path: &[&str]) -> Import {
    Import {
        path: path.iter().map(|s| s.to_string()).collect(),
        span: at("a", 3),
    }
}

fn importing(paths: &[&[&str]]) -> Program {
    let mut p = program(vec![function("main", &[], vec![])]);
    p.imports = paths.iter().map(|p| import(p)).collect();
    p
}

fn link(module: &str, target: usize) -> Link {
    Link {
        file: format!("src/{module}.emel"),
        module_name: module.to_string(),
        target: Target::Module(target),
    }
}

fn module(name: &str, functions: Vec<Function>) -> Program {
    let mut p = program(functions);
    p.module = Some(name.to_string());
    p
}

fn unit(path: &str, p: Program, links: Vec<Link>) -> Unit {
    Unit {
        path: path.to_string(),
        source: Ok(Parsed {
            program: p,
            errors: vec![],
        }),
        links,
    }
}

#[test]
fn imports_are_located_in_packages_or_next_to_the_file() {
    let packages = vec!["math".to_string()];
    let place = locate(&packages, &import(&["math", "ops", "add_one"])).unwrap();
    assert_eq!(place.package, Some(0));
    assert_eq!(place.parts, vec!["ops"]);
    assert_eq!(place.module_name, "ops");
    let place = locate(&packages, &import(&["a", "b", "f"])).unwrap();
    assert_eq!(place.package, None);
    assert_eq!(place.parts, vec!["a", "b"]);
    assert_eq!(place.module_name, "a.b");
    assert_eq!(
        locate(&packages, &import(&["math", "ops"]))
            .unwrap_err()
            .message(),
        "Invalid package import"
    );
    let mut names = packages;
    assert_eq!(
        add_package(&mut names, "math").unwrap_err().message(),
        "duplicate package `math` in --package arguments"
    );
    assert!(add_package(&mut names, "text").is_ok());
    assert_eq!(
        add_dependency(&mut names, "text").unwrap_err().message(),
        "import-root name `text` from a dependency Pome collides with another package; rename the \
         `--package` or the Pome"
    );
    assert!(add_dependency(&mut names, "json").is_ok());
    assert_eq!(names, vec!["math", "text", "json"]);
}

#[test]
fn imported_functions_come_first_under_their_qualifier() {
    let mut hidden = function("hidden", &[], vec![]);
    hidden.is_public = false;
    let ops = module("ops", vec![function("add_one", &[], vec![]), hidden]);
    let (p, errors) = resolve_imports(
        importing(&[&["math", "ops", "add_one"], &["math", "ops", "add_one"]]),
        vec![link("ops", 0), link("ops", 0)],
        vec![unit("/ops.emel", ops, vec![])],
    );
    assert!(errors.is_empty(), "{errors:?}");
    let names: Vec<(&str, Vec<String>)> = p
        .functions
        .iter()
        .map(|f| (f.name.as_str(), f.module_segments.clone()))
        .collect();
    assert_eq!(
        names,
        vec![
            ("add_one", vec!["math".to_string(), "ops".to_string()]),
            ("hidden", vec![]),
            ("main", vec![]),
        ]
    );
    assert!(p.imports.is_empty());
}

#[test]
fn imports_report_what_is_wrong() {
    let mut hidden = function("hidden", &[], vec![]);
    hidden.is_public = false;
    let ops = module("ops", vec![function("add_one", &[], vec![]), hidden]);
    let (_, errors) = resolve_imports(
        importing(&[&["ops", "hidden"], &["ops", "gone"], &["x", "f"], &["y", "f"]]),
        vec![link("ops", 0), link("ops", 0), link("x", 0), link("y", 1)],
        vec![
            unit("/ops.emel", ops, vec![]),
            Unit {
                path: "/y.emel".to_string(),
                source: Err(Error::new("failed to read module `/y.emel`: gone".to_string())),
                links: vec![],
            },
        ],
    );
    assert_eq!(
        messages(&errors),
        vec![
            "Private import",
            "Unknown import",
            "Module mismatch",
            "failed to read module `/y.emel`: gone",
        ]
    );
}

#[test]
fn a_module_that_cannot_be_read_says_so_each_time() {
    let missing = || Unit {
        path: "/x.emel".to_string(),
        source: Err(Error::new("failed to read module `/x.emel`: gone".to_string())),
        links: vec![],
    };
    let (_, errors) = resolve_imports(
        importing(&[&["x", "f"], &["x", "g"]]),
        vec![link("x", 0), link("x", 0)],
        vec![missing()],
    );
    assert_eq!(
        messages(&errors),
        vec![
            "failed to read module `/x.emel`: gone",
            "failed to read module `/x.emel`: gone",
        ]
    );
}

#[test]
fn cyclic_imports_are_reported() {
    let mut a = module("a", vec![function("f", &[], vec![])]);
    a.imports.push(import(&["b", "g"]));
    let mut b = module("b", vec![function("g", &[], vec![])]);
    b.imports.push(import(&["a", "f"]));
    let (_, errors) = resolve_imports(
        importing(&[&["a", "f"]]),
        vec![link("a", 0)],
        vec![
            unit("/a.emel", a, vec![link("b", 1)]),
            unit("/b.emel", b, vec![link("a", 0)]),
        ],
    );
    assert_eq!(
        messages(&errors),
        vec!["cyclic import involving `/a.emel`"]
    );
}

#[test]
fn modules_bring_their_own_imports() {
    let mut a = module("a", vec![function("f", &[], vec![])]);
    a.imports.push(import(&["b", "g"]));
    let b = module("b", vec![function("g", &[], vec![])]);
    let (p, errors) = resolve_imports(
        importing(&[&["a", "f"]]),
        vec![link("a", 0)],
        vec![
            unit("/a.emel", a, vec![link("b", 1)]),
            unit("/b.emel", b, vec![]),
        ],
    );
    assert!(errors.is_empty(), "{errors:?}");
    let names: Vec<String> = p
        .functions
        .iter()
        .map(|f| format!("{}.{}", f.module_segments.join("."), f.name))
        .collect();
    assert_eq!(names, vec!["b.g", "a.f", ".main"]);
}

// Each import statement reports its own failure.
#[test]
fn collects_import_errors_per_statement() {
    let p = importing(&[&["nowhere", "thing"], &["missing", "item"]]);
    let links = p
        .imports
        .iter()
        .map(|i| Link {
            file: format!("{}.emel", i.path[0]),
            module_name: i.path[0].clone(),
            target: Target::Refused(unknown_module(
                i,
                &format!("{}.emel", i.path[0]),
                "No such file or directory",
            )),
        })
        .collect();
    let (_, errors) = resolve_imports(p, links, vec![]);
    let errors: Vec<String> = errors.iter().map(|e| e.message().to_string()).collect();
    let import_errors = errors
        .iter()
        .filter(|message| message.starts_with("Unknown module"))
        .count();
    assert_eq!(import_errors, 2, "{errors:?}");
}

#[test]
fn short_names_compile_like_the_backends_they_stand_for() {
    let make = || program(vec![function("main", &[], vec![number(7)])]);
    let built = |name: &str| compile_source(checked(make()), name, EmitMode::Default).unwrap();
    assert_eq!(built("js").bytes, built("js-node").bytes);
    assert_eq!(built("js-bun").bytes, built("js-node").bytes);
    assert_eq!(built("wasm").bytes, built("wasm-wasi").bytes);
    let refused = compile_source(checked(make()), "backend.json", EmitMode::Default);
    assert_eq!(
        refused.unwrap_err().message(),
        "unknown backend `backend.json`; available backends: wasm-wasi, js-node"
    );
}
