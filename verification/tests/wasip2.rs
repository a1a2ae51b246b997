//! The WASI 0.2 backend.

use emela::backend::{ArtifactKind, BackendError, BackendOptions, EmitMode, Tier};
use emela::ir::{IrExpr, IrFunction, IrProgram};
use emela::types::{EffectRow, Type};
use emela::wasip2::plain::plain_core;
use emela::wasip2::{
    component_error, encode_component, wit_world, world_definitions, Stage, Wasip2Backend, WorldUse,
};
use emela::wasm::text::{assemble, has_module};

fn program(used: &[&str]) -> IrProgram {
    let mut body = IrExpr::Int(0);
    for name in used.iter().rev() {
        body = IrExpr::Let {
            name: "_".to_string(),
            value_ty: Type::Unit,
            value: Box::new(IrExpr::Platform {
                name: name.to_string(),
                args: vec![],
                ret: Type::Unit,
                throws: None,
            }),
            next: Box::new(body),
        };
    }
    IrProgram {
        functions: vec![IrFunction {
            name: "main".to_string(),
            params: vec![],
            ret: Type::Int,
            throws: None,
            effects: EffectRow { effects: vec![] },
            body,
        }],
    }
}

fn imports(used: &[&str]) -> Vec<String> {
    wit_world(&program(used))
        .lines()
        .filter(|l| l.starts_with("  import "))
        .map(|l| l.to_string())
        .collect()
}

#[test]
fn worlds_import_what_the_program_uses() {
    assert!(imports(&[]).is_empty());
    assert_eq!(
        imports(&["io.write_stdout", "random.get_u64"]),
        vec![
            "  import wasi:cli/stdout@0.2.0;",
            "  import wasi:random/random@0.2.0;",
        ]
    );
    assert_eq!(
        imports(&["fs.open_read", "socket.listen", "io.write_stderr"]).len(),
        7
    );
    let text = wit_world(&program(&[]));
    assert!(text.starts_with(
        "package emela:app@0.2.0;\n\nworld command {\n  export wasi:cli/run@0.2.0;\n}\n\npackage wasi:io@0.2.0 {\n"
    ));
}

const CORE: &str = r#"(module
  (func (export "wasi:cli/run@0.2.0#run") (result i32) i32.const 0)
  (memory (export "memory") 1)
  (func (export "cabi_realloc") (param i32 i32 i32 i32) (result i32) i32.const 0))"#;

const NOTHING: WorldUse = WorldUse {
    stdout: false,
    stderr: false,
    sockets: false,
    random: false,
    files: false,
};

#[test]
fn core_modules_become_components() {
    let core = wat::parse_str(CORE).unwrap();
    let component = encode_component(core.clone(), NOTHING).unwrap();
    // A component has its own version in the preamble.
    assert_eq!(&component[..8], b"\0asm\x0d\0\x01\0");
    assert!(component.len() > core.len());
}

#[test]
fn every_world_can_be_embedded() {
    let core = wat::parse_str(CORE).unwrap();
    for bits in 0..32u8 {
        let w = WorldUse {
            stdout: bits & 1 != 0,
            stderr: bits & 2 != 0,
            sockets: bits & 4 != 0,
            random: bits & 8 != 0,
            files: bits & 16 != 0,
        };
        let text = world_definitions(w);
        assert_eq!(text.contains("import wasi:cli/stdout@0.2.0"), w.stdout);
        assert_eq!(text.contains("import wasi:random/random@0.2.0"), w.random);
        let component = encode_component(core.clone(), w).unwrap();
        assert_eq!(&component[..8], b"\0asm\x0d\0\x01\0");
    }
}

#[test]
fn used_interfaces_are_imported() {
    let core = wat::parse_str(
        r#"(module
  (import "wasi:cli/stdout@0.2.0" "get-stdout" (func (result i32)))
  (import "wasi:io/streams@0.2.0" "[method]output-stream.blocking-write-and-flush"
    (func (param i32 i32 i32 i32)))
  (import "wasi:io/streams@0.2.0" "[resource-drop]output-stream" (func (param i32)))
  (func $run (export "wasi:cli/run@0.2.0#run") (result i32) i32.const 0)
  (memory (export "memory") 1)
  (global $heap (export "heap_top") i32 (i32.const 0))
  (func (export "cabi_realloc") (param i32 i32 i32 i32) (result i32) i32.const 0)
  (@custom "emela:capabilities" (after last) "{}"))"#,
    )
    .unwrap();
    assert!(plain_core(&core));
    let w = WorldUse {
        stdout: true,
        ..NOTHING
    };
    let component = encode_component(core.clone(), w).unwrap();
    assert!(component.len() > core.len());
    // Without the interface in the world, the import is not satisfied.
    assert_eq!(
        encode_component(core, NOTHING).unwrap_err().message,
        "internal error: component encode failed"
    );
}

#[test]
fn component_failures_name_their_stage() {
    let failure = |core: Vec<u8>| encode_component(core, NOTHING).unwrap_err();
    assert_eq!(
        failure(vec![1, 2, 3]).message,
        "internal error: component module load failed"
    );
    let garbled = b"\0asm\x01\0\0\0\x01\x01\xff".to_vec();
    assert!(plain_core(&garbled));
    assert!(failure(garbled).message.starts_with("internal error: component "));
    let empty = wat::parse_str("(module)").unwrap();
    assert_eq!(
        failure(empty).message,
        "internal error: component encode failed"
    );
    for (stage, message) in [
        (Stage::Resolve, "internal error: WIT resolve failed"),
        (Stage::World, "internal error: world selection failed"),
        (Stage::Embed, "internal error: metadata embed failed"),
    ] {
        let e = component_error(stage, "why".to_string());
        assert_eq!(e.message, message);
        assert_eq!(e.diagnostics, vec!["why".to_string()]);
    }
}

#[test]
fn only_plain_core_modules_are_wrapped() {
    let refused = [
        r#"(module (import "__main_module__" "f" (func)))"#,
        r#"(module (import "env" "memory" (memory 1)))"#,
        r#"(module (import "wasi:cli/stdout@0.2.1" "get-stdout" (func (result i32))))"#,
        r#"(module (import "wasi:io/streams@0.2.0" "[async-lower]x" (func)))"#,
        r#"(module (func (export "[callback]x")))"#,
        r#"(module (func (export "cm32p2_initialize")))"#,
        r#"(module (func (export "cabi_realloc_adapter")))"#,
        r#"(module (table (export "__indirect_function_table") 1 funcref))"#,
        r#"(module (@custom "component-type:x" "abc"))"#,
        r#"(module (@custom "producers" "\00"))"#,
    ];
    for text in refused {
        let core = wat::parse_str(text).unwrap();
        assert!(!plain_core(&core), "{text}");
        let e = encode_component(core, NOTHING).unwrap_err();
        assert_eq!(e.message, "internal error: component module load failed");
        assert_eq!(
            e.diagnostics,
            vec!["the core module is not a plain one".to_string()]
        );
    }
    // What a module holds in its memory says nothing about it.
    let text = r#"(module (memory 1) (data (i32.const 0) "component-type __main_module__"))"#;
    assert!(plain_core(&wat::parse_str(text).unwrap()));
    assert!(!plain_core(&b"\0asm\x0d\0\x01\0".to_vec()));
    assert!(!plain_core(&b"\0asm\x01\0\0\0\x02\x05".to_vec()));
}

#[test]
fn only_module_texts_are_assembled() {
    assert!(has_module(";; a comment\n  (module)"));
    assert!(has_module("(module $m)"));
    assert!(!has_module("(component)"));
    assert!(!has_module(";; a comment\r(component (module))"));
    assert!(!has_module("(; a block ;) (module)"));
    assert!(!has_module(""));
    assert_eq!(assemble("(module)").unwrap(), b"\0asm\x01\0\0\0");
    assert_eq!(
        assemble("(component)").unwrap_err(),
        "the text does not open with a module"
    );
    assert!(assemble("(module").unwrap_err().contains("expected `)`"));
}

#[test]
fn components_are_compiled_from_their_core() {
    let backend = Wasip2Backend;
    assert_eq!(backend.name(), "wasm-wasip2");
    assert_eq!(backend.tier(), Tier::Tier1);
    let mut options = BackendOptions::default();
    options.mode = EmitMode::Text;
    let a = backend
        .compile(&program(&[]), Ok(CORE.to_string()), &options)
        .unwrap();
    assert_eq!(a.kind, ArtifactKind::WasmText);
    assert_eq!(a.bytes, CORE.as_bytes());
    options.mode = EmitMode::Default;
    let e = backend
        .compile(&program(&[]), Ok("(module".to_string()), &options)
        .unwrap_err();
    assert_eq!(
        e.message,
        "internal error: generated core WAT failed to assemble"
    );
    let e = backend
        .compile(
            &program(&[]),
            Err(BackendError::new("no core".to_string())),
            &options,
        )
        .unwrap_err();
    assert_eq!(e.message, "no core");
    match backend.compile(&program(&[]), Ok(CORE.to_string()), &options) {
        Ok(a) => assert_eq!(a.kind, ArtifactKind::WasmComponent),
        Err(e) => panic!("{} {:?}", e.message, e.diagnostics),
    }
}
