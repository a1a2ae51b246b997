//! The WebAssembly backend on whole programs.

use emela::backend::{Backend, BackendOptions, EmitMode};
use emela::ir::{IrCapture, IrExpr, IrFunction, IrParam, IrProgram};
use emela::types::{BinaryOp, EffectRow, FunctionType, Type};
use emela::wasm::module::{MEMORY_MAX_PAGES, MEMORY_PAGES};
use emela::wasm::text::has_module;
use emela::wasm::{assembly_error, binary_artifact, WasmBackend};

fn int_fn(params: Vec<Type>) -> FunctionType {
    FunctionType {
        params,
        ret: Box::new(Type::Int),
        throws: None,
        effects: EffectRow::default(),
    }
}

fn main_returning(ret: Type, body: IrExpr) -> IrProgram {
    IrProgram {
        functions: vec![IrFunction {
            name: "main".into(),
            params: vec![],
            ret,
            throws: None,
            effects: EffectRow::default(),
            body,
        }],
    }
}

fn compile_binary(program: &IrProgram) -> Vec<u8> {
    WasmBackend
        .compile(program, &BackendOptions::default())
        .expect("compile")
        .bytes
}

fn compile_wat(program: &IrProgram) -> String {
    let artifact = WasmBackend
        .compile(
            program,
            &BackendOptions {
                mode: EmitMode::Text,
                ..Default::default()
            },
        )
        .expect("compile");
    String::from_utf8(artifact.bytes).unwrap()
}

// `fn add(x, y) -> Int { x + y }` and `fn main() -> Int { add(20, 22) }`.
fn add_program() -> IrProgram {
    let add = IrFunction {
        name: "add".into(),
        params: vec![
            IrParam {
                name: "x".into(),
                ty: Type::Int,
            },
            IrParam {
                name: "y".into(),
                ty: Type::Int,
            },
        ],
        ret: Type::Int,
        throws: None,
        effects: EffectRow::default(),
        body: IrExpr::Binary {
            op: BinaryOp::Add,
            ty: Type::Int,
            left: Box::new(IrExpr::Var {
                name: "x".into(),
                ty: Type::Int,
            }),
            right: Box::new(IrExpr::Var {
                name: "y".into(),
                ty: Type::Int,
            }),
        },
    };
    let main = IrFunction {
        name: "main".into(),
        params: vec![],
        ret: Type::Int,
        throws: None,
        effects: EffectRow::default(),
        body: IrExpr::Call {
            callee: Box::new(IrExpr::FunctionRef {
                name: "add".into(),
                sig: int_fn(vec![Type::Int, Type::Int]),
            }),
            args: vec![IrExpr::Int(20), IrExpr::Int(22)],
            ret: Type::Int,
        },
    };
    IrProgram {
        functions: vec![add, main],
    }
}

#[test]
fn compiles_to_a_valid_wasm_binary() {
    let bytes = compile_binary(&add_program());
    assert_eq!(&bytes[0..4], b"\0asm");
    assert_eq!(&bytes[4..8], &[1, 0, 0, 0]);
}

#[test]
fn emits_expected_wat() {
    let wat = compile_wat(&add_program());
    assert!(wat.contains("call $f_add"), "{wat}");
    assert!(wat.contains("(export \"_start\" (func $_start))"), "{wat}");
    assert!(wat.contains("call $proc_exit"), "{wat}");
}

#[test]
fn emits_the_rc_runtime() {
    let wat = compile_wat(&add_program());
    assert!(
        wat.contains("(func $alloc (param $n i32) (param $drop i32) (result i32)"),
        "{wat}"
    );
    assert!(
        wat.contains("(func $free (param $p i32) (param $size i32)"),
        "{wat}"
    );
    assert!(wat.contains("(func $rc_retain (param $p i32)"), "{wat}");
    assert!(wat.contains("(func $rc_release (param $p i32)"), "{wat}");
    assert!(wat.contains("(type $drop_t (func (param i32)))"), "{wat}");
    assert!(
        wat.contains(&format!(
            "(memory (export \"memory\") {MEMORY_PAGES} {MEMORY_MAX_PAGES})"
        )),
        "{wat}"
    );
    assert!(wat.contains("(export \"live_bytes\")"), "{wat}");
    assert!(wat.contains("(export \"heap_top\")"), "{wat}");
    let _ = compile_binary(&add_program());
}

#[test]
fn string_literal_becomes_a_data_segment() {
    let program = main_returning(Type::String, IrExpr::String("Hello, Emela!".into()));
    let wat = compile_wat(&program);
    assert!(wat.contains("(data (i32.const 16) \"\\0d"), "{wat}");
    let _ = compile_binary(&program);
}

#[test]
fn array_allocates_and_stores_elements() {
    let program = main_returning(
        Type::Array(Box::new(Type::Int)),
        IrExpr::Array {
            elem_ty: Type::Int,
            elems: vec![IrExpr::Int(10), IrExpr::Int(20), IrExpr::Int(30)],
        },
    );
    let wat = compile_wat(&program);
    assert!(wat.contains("call $alloc"), "{wat}");
    assert!(wat.contains("i32.store"), "{wat}");
    let _ = compile_binary(&program);
}

#[test]
fn emits_drop_glue_for_heap_shapes() {
    let program = main_returning(
        Type::Array(Box::new(Type::Int)),
        IrExpr::Array {
            elem_ty: Type::Int,
            elems: vec![IrExpr::Int(1)],
        },
    );
    let wat = compile_wat(&program);
    assert!(wat.contains("(func $drop_leak"), "{wat}");
    assert!(wat.contains("(func $drop_string"), "{wat}");
    assert!(wat.contains("(func $drop_array_4v"), "{wat}");
    assert!(wat.contains("call $rc_release"), "{wat}");
    let _ = compile_binary(&program);
}

#[test]
fn float_array_uses_f64_stores() {
    let program = main_returning(
        Type::Array(Box::new(Type::Float)),
        IrExpr::Array {
            elem_ty: Type::Float,
            elems: vec![IrExpr::Float("1.5".into()), IrExpr::Float("2.5".into())],
        },
    );
    let wat = compile_wat(&program);
    assert!(wat.contains("f64.store"), "{wat}");
    let _ = compile_binary(&program);
}

// `fn make_adder(n) { fn(x) { x + n } }` and a `main` that calls the result.
fn closure_program() -> IrProgram {
    let lambda = IrExpr::Fn {
        params: vec![IrParam {
            name: "x".into(),
            ty: Type::Int,
        }],
        ret: Type::Int,
        throws: None,
        effects: EffectRow::default(),
        captures: vec![IrCapture {
            name: "n".into(),
            ty: Type::Int,
        }],
        body: Box::new(IrExpr::Binary {
            op: BinaryOp::Add,
            ty: Type::Int,
            left: Box::new(IrExpr::Var {
                name: "x".into(),
                ty: Type::Int,
            }),
            right: Box::new(IrExpr::Var {
                name: "n".into(),
                ty: Type::Int,
            }),
        }),
    };
    let make_adder = IrFunction {
        name: "make_adder".into(),
        params: vec![IrParam {
            name: "n".into(),
            ty: Type::Int,
        }],
        ret: Type::Function(int_fn(vec![Type::Int])),
        throws: None,
        effects: EffectRow::default(),
        body: lambda,
    };
    let main = IrFunction {
        name: "main".into(),
        params: vec![],
        ret: Type::Int,
        throws: None,
        effects: EffectRow::default(),
        body: IrExpr::Let {
            name: "add10".into(),
            value_ty: Type::Function(int_fn(vec![Type::Int])),
            value: Box::new(IrExpr::Call {
                callee: Box::new(IrExpr::FunctionRef {
                    name: "make_adder".into(),
                    sig: FunctionType {
                        params: vec![Type::Int],
                        ret: Box::new(Type::Function(int_fn(vec![Type::Int]))),
                        throws: None,
                        effects: EffectRow::default(),
                    },
                }),
                args: vec![IrExpr::Int(10)],
                ret: Type::Function(int_fn(vec![Type::Int])),
            }),
            next: Box::new(IrExpr::Call {
                callee: Box::new(IrExpr::Var {
                    name: "add10".into(),
                    ty: Type::Function(int_fn(vec![Type::Int])),
                }),
                args: vec![IrExpr::Int(32)],
                ret: Type::Int,
            }),
        },
    };
    IrProgram {
        functions: vec![make_adder, main],
    }
}

#[test]
fn closures_use_table_and_indirect_calls() {
    let wat = compile_wat(&closure_program());
    assert!(wat.contains("(table "), "{wat}");
    assert!(wat.contains("(elem "), "{wat}");
    assert!(wat.contains("call_indirect (type $sig_"), "{wat}");
    assert!(wat.contains("$lambda_0"), "{wat}");
    // The captured `n` is loaded from the environment pointer.
    assert!(wat.contains("local.get $p0"), "{wat}");
    let _ = compile_binary(&closure_program());
}

/// A rewritten self-tail-call compiles to a function-head
/// `loop` and a `br` back to it - no `call` - and still validates.
#[test]
fn self_tail_call_emits_a_loop() {
    let spin = IrFunction {
        name: "spin".into(),
        params: vec![IrParam {
            name: "n".into(),
            ty: Type::Int,
        }],
        ret: Type::Int,
        throws: None,
        effects: EffectRow::default(),
        body: IrExpr::If {
            cond: Box::new(IrExpr::Binary {
                op: BinaryOp::Eq,
                ty: Type::Int,
                left: Box::new(IrExpr::Var {
                    name: "n".into(),
                    ty: Type::Int,
                }),
                right: Box::new(IrExpr::Int(0)),
            }),
            then: Box::new(IrExpr::Int(42)),
            els: Box::new(IrExpr::TailSelfCall {
                args: vec![IrExpr::Binary {
                    op: BinaryOp::Sub,
                    ty: Type::Int,
                    left: Box::new(IrExpr::Var {
                        name: "n".into(),
                        ty: Type::Int,
                    }),
                    right: Box::new(IrExpr::Int(1)),
                }],
                ty: Type::Int,
            }),
            ty: Type::Int,
        },
    };
    let main = IrFunction {
        name: "main".into(),
        params: vec![],
        ret: Type::Int,
        throws: None,
        effects: EffectRow::default(),
        body: IrExpr::Call {
            callee: Box::new(IrExpr::FunctionRef {
                name: "spin".into(),
                sig: int_fn(vec![Type::Int]),
            }),
            args: vec![IrExpr::Int(3)],
            ret: Type::Int,
        },
    };
    let program = IrProgram {
        functions: vec![spin, main],
    };
    let wat = compile_wat(&program);
    assert!(wat.contains("(loop $tail (result i32)"), "{wat}");
    assert!(wat.contains("br $tail"), "{wat}");
    // The tail call reassigns the parameter local before branching.
    assert!(wat.contains("local.set $p1"), "{wat}");
    let _ = compile_binary(&program);
}

fn main_platform(name: &str) -> IrProgram {
    IrProgram {
        functions: vec![IrFunction {
            name: "main".into(),
            params: vec![],
            ret: Type::Unit,
            throws: None,
            effects: EffectRow::sorted(vec!["io".into()]),
            body: IrExpr::Platform {
                name: name.into(),
                args: vec![IrExpr::String("hi".into())],
                ret: Type::Unit,
                throws: None,
            },
        }],
    }
}

#[test]
fn emits_wasi_glue_and_validates() {
    let program = main_platform("io.write_stdout");
    let wat = String::from_utf8(
        WasmBackend
            .compile(
                &program,
                &BackendOptions {
                    mode: EmitMode::Text,
                    ..Default::default()
                },
            )
            .expect("compile")
            .bytes,
    )
    .unwrap();
    assert!(
        wat.contains("(import \"wasi_snapshot_preview1\" \"fd_write\""),
        "{wat}"
    );
    assert!(wat.contains("(func $plat_io_write_stdout"), "{wat}");
    assert!(wat.contains("call $plat_io_write_stdout"), "{wat}");
    // Default mode assembles and validates the binary.
    let bytes = WasmBackend
        .compile(&program, &BackendOptions::default())
        .expect("compile")
        .bytes;
    assert_eq!(&bytes[0..4], b"\0asm");
}

#[test]
fn rejects_unprovided_platform_fn() {
    let err = WasmBackend
        .compile(&main_platform("fs.read"), &BackendOptions::default())
        .unwrap_err();
    assert!(err.to_string().contains("does not provide"), "{}", err.to_string());
}

#[test]
fn a_program_without_main_is_refused() {
    let program = IrProgram { functions: vec![] };
    let err = WasmBackend.compile(&program, &BackendOptions::default()).unwrap_err();
    assert_eq!(err.to_string(), "wasm backend requires a `main` function");
}

#[test]
fn an_unknown_intrinsic_is_refused() {
    let program = main_returning(
        Type::Int,
        IrExpr::Intrinsic { name: "i32_popcnt".into(), args: vec![IrExpr::Int(3)], ret: Type::Int },
    );
    let err = WasmBackend.compile(&program, &BackendOptions::default()).unwrap_err();
    assert_eq!(
        err.to_string(),
        "backend `wasm-wasi` does not provide intrinsic `i32_popcnt`"
    );
}

#[test]
fn an_intrinsic_with_too_few_arguments_is_refused() {
    let program = main_returning(
        Type::Int,
        IrExpr::Intrinsic { name: "string_length".into(), args: vec![], ret: Type::Int },
    );
    // `string_length` takes whatever it is given; the module does not validate.
    let err = WasmBackend.compile(&program, &BackendOptions::default()).unwrap_err();
    assert!(err.to_string().contains("failed to validate"), "{}", err.to_string());
    let program = main_returning(
        Type::Int,
        IrExpr::Intrinsic { name: "array_length".into(), args: vec![], ret: Type::Int },
    );
    let err = WasmBackend.compile(&program, &BackendOptions::default()).unwrap_err();
    assert_eq!(err.to_string(), "intrinsic `array_length` takes 1 argument(s)");
}

#[test]
fn nested_lambdas_are_numbered_in_order() {
    let int = Type::Int;
    let lambda = |captures: Vec<IrCapture>, ret: Type, body: IrExpr| IrExpr::Fn {
        params: vec![],
        ret,
        throws: None,
        effects: EffectRow::default(),
        captures,
        body: Box::new(body),
    };
    let inner = lambda(vec![], Type::Int, IrExpr::Int(7));
    let outer = lambda(vec![], Type::Function(int_fn(vec![])), inner);
    let last = lambda(vec![], int, IrExpr::Int(8));
    let two = |a: IrExpr, b: IrExpr| IrExpr::Let {
        name: "f".into(),
        value_ty: Type::Function(FunctionType {
            params: vec![],
            ret: Box::new(Type::Function(int_fn(vec![]))),
            throws: None,
            effects: EffectRow::default(),
        }),
        value: Box::new(a),
        next: Box::new(IrExpr::Let {
            name: "g".into(),
            value_ty: Type::Function(int_fn(vec![])),
            value: Box::new(b),
            next: Box::new(IrExpr::Int(0)),
        }),
    };
    let program = main_returning(Type::Int, two(outer, last));
    let wat = compile_wat(&program);
    // `main` is 0, the outer lambda 1, the one inside it 2, and the last 3.
    let main = &wat[wat.find("(func $f_main").unwrap()..wat.find("(func $lambda_0").unwrap()];
    assert!(main.contains("i32.const 1\n    i32.store"), "{main}");
    assert!(main.contains("i32.const 3\n    i32.store"), "{main}");
    let first = &wat[wat.find("(func $lambda_0").unwrap()..wat.find("(func $lambda_1").unwrap()];
    assert!(first.contains("i32.const 2\n    i32.store"), "{first}");
    let _ = compile_binary(&program);
}

#[test]
fn a_throwing_call_is_unwrapped_and_caught() {
    let err_ty = Type::Enum("E".into(), vec![]);
    let sig = FunctionType {
        params: vec![],
        ret: Box::new(Type::Int),
        throws: Some(Box::new(err_ty.clone())),
        effects: EffectRow::default(),
    };
    let risky = IrFunction {
        name: "risky".into(),
        params: vec![],
        ret: Type::Int,
        throws: Some(err_ty.clone()),
        effects: EffectRow::default(),
        body: IrExpr::Throw {
            value: Box::new(IrExpr::EnumValue {
                ty: err_ty.clone(),
                variant: "Bad".into(),
                tag: 2,
                payload: vec![IrExpr::Int(1)],
            }),
        },
    };
    let main = IrFunction {
        name: "main".into(),
        params: vec![],
        ret: Type::Int,
        throws: None,
        effects: EffectRow::default(),
        body: IrExpr::Try {
            body: Box::new(IrExpr::Call {
                callee: Box::new(IrExpr::FunctionRef { name: "risky".into(), sig }),
                args: vec![],
                ret: Type::Int,
            }),
            arms: vec![emela::ir::IrArm {
                pattern: emela::ir::IrPattern::Wildcard { binding: None },
                guard: None,
                body: IrExpr::Int(5),
            }],
            ty: Type::Int,
            err_name: None,
        },
    };
    let program = IrProgram { functions: vec![risky, main] };
    let wat = compile_wat(&program);
    assert!(wat.contains("(block $catch_"), "{wat}");
    assert!(wat.contains("(func $drop_enum_Enum__E_____"), "{wat}");
    let _ = compile_binary(&program);
}

#[test]
fn heap_values_of_every_shape_validate() {
    let text = || IrExpr::String("a".into());
    let program = main_returning(
        Type::Array(Box::new(Type::String)),
        IrExpr::Intrinsic {
            name: "array_push".into(),
            args: vec![
                IrExpr::Array { elem_ty: Type::String, elems: vec![text(), text()] },
                IrExpr::Concat { left: Box::new(text()), right: Box::new(text()) },
            ],
            ret: Type::Array(Box::new(Type::String)),
        },
    );
    let wat = compile_wat(&program);
    assert!(wat.contains("(func $drop_array_4p"), "{wat}");
    assert!(wat.contains("loop $push_each_"), "{wat}");
    // The one literal is stored once.
    assert_eq!(wat.matches("(data (i32.const").count(), 1);
    let _ = compile_binary(&program);
}

// Every signature that an indirect call names is declared, once.
#[test]
fn the_tables_supply_the_code() {
    let wat = compile_wat(&closure_program());
    let mut calls = 0;
    for rest in wat.split("call_indirect (type $sig_").skip(1) {
        let number: String = rest.chars().take_while(|c| c.is_ascii_digit()).collect();
        let declared = format!("  (type $sig_{number} (func");
        assert_eq!(wat.matches(&declared).count(), 1, "{declared}");
        calls += 1;
    }
    assert!(calls > 0);
}

#[test]
fn what_the_assembler_and_the_validator_say_is_passed_on() {
    let err = binary_artifact(vec![1, 2], Some("bad magic".into())).unwrap_err();
    assert_eq!(
        err.to_string(),
        "internal error: generated wasm failed to validate\nbad magic"
    );
    assert_eq!(binary_artifact(vec![1, 2], None).unwrap().bytes, vec![1, 2]);
    assert_eq!(
        assembly_error("no".into()).to_string(),
        "internal error: generated WAT failed to assemble\nno"
    );
}

#[test]
fn an_unassemblable_literal_is_reported() {
    let program = main_returning(Type::Float, IrExpr::Float("one".into()));
    let err = WasmBackend.compile(&program, &BackendOptions::default()).unwrap_err();
    assert!(err.to_string().contains("failed to assemble"), "{}", err.to_string());
}

#[test]
fn host_functions_are_imported_and_forwarded() {
    let mut options = BackendOptions { mode: EmitMode::Text, ..Default::default() };
    options.platform_registry.push(emela::platform::PlatformFn {
        path: vec!["host".into(), "gpu".into()],
        name: "draw".into(),
        params: vec![Type::String, Type::Int],
        ret: Type::Unit,
        throws: None,
        capability: "Gpu".into(),
    });
    let program = main_returning(
        Type::Unit,
        IrExpr::Platform {
            name: "host.gpu.draw".into(),
            args: vec![IrExpr::String("x".into()), IrExpr::Int(2)],
            ret: Type::Unit,
            throws: None,
        },
    );
    let wat = String::from_utf8(WasmBackend.compile(&program, &options).unwrap().bytes).unwrap();
    assert!(
        wat.contains("(import \"host_gpu\" \"draw\" (func $host_plat_host_gpu_draw (param i32 i32) ))"),
        "{wat}"
    );
    assert!(
        wat.contains("(func $plat_host_gpu_draw (param $p0 i32) (param $p1 i32) (result i32)"),
        "{wat}"
    );
    options.mode = EmitMode::Default;
    assert_eq!(&WasmBackend.compile(&program, &options).unwrap().bytes[0..4], b"\0asm");
}

#[test]
fn written_modules_open_with_a_module() {
    let text = compile_wat(&main_returning(Type::Int, IrExpr::Int(7)));
    assert!(text.starts_with(";; Generated by the Emela wasm backend.\n(module\n"));
    assert!(has_module(&text));
}
