//! The JavaScript backend.

use emela::backend::{Backend, BackendOptions};
use emela::intrinsic::intrinsic_interface;
use emela::ir::{IrExpr, IrFunction, IrProgram};
use emela::js::JsBackend;
use emela::types::{EffectRow, Type};

fn main_with(body: IrExpr) -> IrProgram {
    IrProgram {
        functions: vec![IrFunction {
            name: "main".into(),
            params: vec![],
            ret: Type::Unit,
            throws: None,
            effects: EffectRow::sorted(vec!["io".into()]),
            body,
        }],
    }
}

fn platform_call(name: &str) -> IrExpr {
    IrExpr::Platform {
        name: name.into(),
        args: vec![IrExpr::String("hi".into())],
        ret: Type::Unit,
        throws: None,
    }
}

#[test]
fn bundles_runtime_for_used_platform_fns() {
    let artifact = JsBackend
        .compile(
            &main_with(platform_call("io.write_stdout")),
            &BackendOptions::default(),
        )
        .expect("compile");
    let js = String::from_utf8(artifact.bytes).unwrap();
    assert!(js.contains("const __rt = {"), "{js}");
    assert!(
        js.contains("\"io.write_stdout\": (s) => process.stdout.write(s)"),
        "{js}"
    );
    assert!(js.contains("__rt[\"io.write_stdout\"](\"hi\")"), "{js}");
    // An unused platform function is not bundled.
    assert!(!js.contains("write_stderr"), "{js}");
}

#[test]
fn lib_rejects_unprovided_platform_fn() {
    let err = JsBackend
        .compile(
            &main_with(platform_call("fs.read")),
            &BackendOptions::default(),
        )
        .unwrap_err();
    assert!(err.to_string().contains("does not provide"), "{err:?}");
    assert!(err.to_string().contains("fs.read"), "{err:?}");
}

fn intrinsic(name: &str, args: Vec<IrExpr>, ret: Type) -> String {
    let program = main_with(IrExpr::Intrinsic {
        name: name.into(),
        args,
        ret,
    });
    let artifact = JsBackend
        .compile(&program, &BackendOptions::default())
        .expect("compile");
    let js = String::from_utf8(artifact.bytes).unwrap();
    let start = js.find("  return ").expect("a body") + "  return ".len();
    let end = js[start..].find(";\n}").expect("an end") + start;
    js[start..end].to_string()
}

#[test]
fn intrinsics_have_native_forms() {
    let int = |n: i32| IrExpr::Int(n);
    let text = || IrExpr::String("ab".into());
    assert_eq!(
        intrinsic("f64_sqrt", vec![IrExpr::Float("4.0".into())], Type::Float),
        "Math.sqrt(4.0)"
    );
    assert_eq!(intrinsic("i32_add", vec![int(1), int(2)], Type::Int), "(1 + 2)");
    assert_eq!(
        intrinsic("i32_div_s", vec![int(7), int(2)], Type::Int),
        "((7 / 2) | 0)"
    );
    assert_eq!(
        intrinsic("i32_shr_u", vec![int(-1), int(1)], Type::Int),
        "((-1 >>> 1) | 0)"
    );
    assert_eq!(
        intrinsic("string_slice", vec![text(), int(0), int(1)], Type::String),
        "Array.from(\"ab\").slice(Math.max(0, 0), Math.max(0, 1)).join(\"\")"
    );
    assert_eq!(
        intrinsic("string_char_at", vec![text(), int(1)], Type::Char),
        "Array.from(\"ab\")[1].codePointAt(0)"
    );
    assert_eq!(
        intrinsic(
            "array_push",
            vec![
                IrExpr::Array {
                    elem_ty: Type::Int,
                    elems: vec![int(1)],
                },
                int(2),
            ],
            Type::Array(Box::new(Type::Int)),
        ),
        "[...[1], 2]"
    );
    assert_eq!(
        intrinsic("bytes_from_string", vec![text()], Type::Bytes),
        "new TextEncoder().encode(\"ab\")"
    );
}

#[test]
fn every_intrinsic_of_the_interface_compiles() {
    let all = intrinsic_interface();
    assert_eq!(all.len(), 39);
    for entry in &all {
        let args = entry.params.iter().map(|_| IrExpr::Unit).collect();
        let program = main_with(IrExpr::Intrinsic {
            name: entry.name.clone(),
            args,
            ret: Type::Unit,
        });
        assert!(
            JsBackend.compile(&program, &BackendOptions::default()).is_ok(),
            "{}",
            entry.name
        );
    }
    let program = main_with(IrExpr::Intrinsic {
        name: "i32_nand".into(),
        args: vec![],
        ret: Type::Int,
    });
    let err = JsBackend
        .compile(&program, &BackendOptions::default())
        .unwrap_err();
    assert_eq!(
        err.message,
        "backend `js-node` does not provide intrinsic `i32_nand`"
    );
}
