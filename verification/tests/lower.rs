//! Lowering, on syntax trees that are built by hand.

use std::sync::Arc;

use emela::ast::{
    Block, BlockItem, EnumDecl, EnumVariant, Expr, Extern, FieldBinding, FieldInit, Function,
    ImplDecl, MatchArm, Param, Pattern, Program, RecordDecl, RecordField, TraitDecl,
    TraitMethodSig,
};
use emela::ir::{IrExpr, IrPattern, IrProgram};
use emela::ir_text::emit_text;
use emela::lower::float::shorten;
use emela::lower::lower;
use emela::resolve::{resolve_name, Resolved};
use emela::source::{SourceFile, Span};
use emela::tail::rewrite_self_tail_calls;
use emela::typed::{Operator, TypedFunction, TypedProgram};
use emela::types::{BinaryOp, EffectRow, Type};

fn span() -> Span {
    let file = Arc::new(SourceFile {
        label: "test".to_string(),
        source: String::new(),
    });
    Span {
        file,
        start: 0,
        end: 0,
    }
}

fn none() -> EffectRow {
    EffectRow { effects: vec![] }
}

fn param(name: &str, ty: Type) -> Param {
    Param {
        name: name.to_string(),
        name_span: span(),
        ty,
    }
}

fn block(items: Vec<BlockItem>) -> Block {
    Block {
        items,
        span: span(),
    }
}

fn value(e: Expr) -> BlockItem {
    BlockItem::Expr(e)
}

fn bind(name: &str, e: Expr) -> BlockItem {
    BlockItem::Let {
        name: name.to_string(),
        name_span: span(),
        ty: None,
        value: e,
    }
}

fn var(name: &str) -> Expr {
    Expr::Var(name.to_string(), span())
}

fn number(n: i32) -> Expr {
    Expr::Int(n, span())
}

fn call(callee: Expr, args: Vec<Expr>) -> Expr {
    Expr::Call {
        callee: Box::new(callee),
        args,
        span: span(),
    }
}

fn binary(op: BinaryOp, left: Expr, right: Expr) -> Expr {
    Expr::Binary {
        op,
        left: Box::new(left),
        right: Box::new(right),
        span: span(),
    }
}

fn lambda(params: Vec<Param>, ret: Type, items: Vec<BlockItem>) -> Expr {
    Expr::Fn {
        params,
        ret,
        throws: None,
        effects: none(),
        body: block(items),
        span: span(),
    }
}

fn function(name: &str, params: Vec<Param>, ret: Type, items: Vec<BlockItem>) -> Function {
    Function {
        name: name.to_string(),
        name_span: span(),
        is_public: false,
        module_segments: vec![],
        declared_module: None,
        effect_name: None,
        type_params: vec![],
        bounds: vec![],
        params,
        ret,
        throws: None,
        effects: none(),
        body: block(items),
        is_test: false,
    }
}

fn program(functions: Vec<Function>) -> Program {
    Program {
        module: None,
        imports: vec![],
        functions,
        externs: vec![],
        enums: vec![],
        records: vec![],
        traits: vec![],
        impls: vec![],
        effects: vec![],
    }
}

fn this() -> Type {
    Type::Var("Self".to_string())
}

fn intrinsic(name: &str, ret: Type) -> Extern {
    Extern {
        name: name.to_string(),
        name_span: span(),
        module: Some("core".to_string()),
        params: vec![param("a", Type::Int), param("b", Type::Int)],
        ret,
        throws: None,
        effects: none(),
        is_intrinsic: true,
        effect_name: None,
    }
}

fn operator_trait(name: &str, method: &str, ret: Type) -> TraitDecl {
    TraitDecl {
        name: name.to_string(),
        name_span: span(),
        module: Some("core".to_string()),
        methods: vec![TraitMethodSig {
            name: method.to_string(),
            name_span: span(),
            params: vec![param("a", this()), param("b", this())],
            ret,
            throws: None,
            effects: none(),
            default_body: None,
        }],
    }
}

fn operator_impl(name: &str, method: &str, ret: Type, intrinsic: &str) -> ImplDecl {
    let body = call(var(intrinsic), vec![var("a"), var("b")]);
    let mut f = function(
        method,
        vec![param("a", Type::Int), param("b", Type::Int)],
        ret,
        vec![value(body)],
    );
    f.declared_module = Some("core".to_string());
    ImplDecl {
        trait_name: name.to_string(),
        trait_span: span(),
        target: Type::Int,
        target_span: span(),
        type_params: vec![],
        bounds: vec![],
        module: Some("core".to_string()),
        methods: vec![f],
    }
}

/// Adds the operator traits of the core prelude for `Int`.
fn with_prelude(mut p: Program) -> Program {
    p.externs.push(intrinsic("i32_add", Type::Int));
    p.externs.push(intrinsic("i32_lt", Type::Bool));
    p.traits.push(operator_trait("Add", "add", this()));
    p.traits.push(operator_trait("Ord", "lt", Type::Bool));
    p.impls.push(operator_impl("Add", "add", Type::Int, "i32_add"));
    p.impls.push(operator_impl("Ord", "lt", Type::Bool, "i32_lt"));
    p
}

fn copy_type(t: &Type) -> Type {
    t.copy()
}

/// What the type checker finds out about the functions as they are declared.
fn typed(p: &Program) -> TypedProgram {
    TypedProgram {
        functions: p
            .functions
            .iter()
            .map(|f| TypedFunction {
                params: f.params.iter().map(|q| copy_type(&q.ty)).collect(),
                ret: copy_type(&f.ret),
                throws: f.throws.as_ref().map(copy_type),
                effects: f.effects.copy(),
                body_effects: f.effects.copy(),
            })
            .collect(),
        operators: vec![
            Operator {
                op: BinaryOp::Add,
                trait_name: "Add".to_string(),
                method: "add".to_string(),
            },
            Operator {
                op: BinaryOp::Lt,
                trait_name: "Ord".to_string(),
                method: "lt".to_string(),
            },
        ],
        core_module: "core".to_string(),
    }
}

fn lowered(p: Program) -> IrProgram {
    let p = with_prelude(p);
    let t = typed(&p);
    lower(&p, &t)
}

fn main_body(ir: &IrProgram) -> &IrExpr {
    &ir.functions
        .iter()
        .find(|function| function.name == "main")
        .expect("main")
        .body
}

fn names(ir: &IrProgram) -> Vec<&str> {
    ir.functions.iter().map(|f| f.name.as_str()).collect()
}

fn first_lambda(expr: &IrExpr) -> Option<&IrExpr> {
    match expr {
        IrExpr::Fn { .. } => Some(expr),
        IrExpr::Let { value, next, .. } => first_lambda(value).or_else(|| first_lambda(next)),
        IrExpr::Call { callee, args, .. } => {
            first_lambda(callee).or_else(|| args.iter().find_map(first_lambda))
        }
        IrExpr::Binary { left, right, .. } => first_lambda(left).or_else(|| first_lambda(right)),
        IrExpr::Array { elems, .. } => elems.iter().find_map(first_lambda),
        _ => None,
    }
}

fn int_to_int() -> Type {
    Type::Function(emela::types::FunctionType {
        params: vec![Type::Int],
        ret: Box::new(Type::Int),
        throws: None,
        effects: none(),
    })
}

#[test]
fn lambda_captures_enclosing_binding() {
    let adder = lambda(
        vec![param("x", Type::Int)],
        Type::Int,
        vec![value(binary(BinaryOp::Add, var("x"), var("n")))],
    );
    let ir = lowered(program(vec![
        function(
            "make_adder",
            vec![param("n", Type::Int)],
            int_to_int(),
            vec![value(adder)],
        ),
        function(
            "main",
            vec![],
            Type::Int,
            vec![
                bind("a", call(var("make_adder"), vec![number(1)])),
                value(call(var("a"), vec![number(41)])),
            ],
        ),
    ]));
    let adder = ir
        .functions
        .iter()
        .find(|function| function.name == "make_adder")
        .expect("make_adder");
    let lambda = first_lambda(&adder.body).expect("lambda");
    let IrExpr::Fn { captures, .. } = lambda else {
        panic!("expected Fn");
    };
    assert_eq!(captures.len(), 1);
    assert_eq!(captures[0].name, "n");
    assert_eq!(captures[0].ty, Type::Int);
}

#[test]
fn monomorphizes_generic_call() {
    let mut identity = function(
        "identity",
        vec![param("x", Type::Var("T".to_string()))],
        Type::Var("T".to_string()),
        vec![value(var("x"))],
    );
    identity.type_params.push("T".to_string());
    let ir = lowered(program(vec![
        identity,
        function(
            "main",
            vec![],
            Type::Int,
            vec![value(call(var("identity"), vec![number(42)]))],
        ),
    ]));
    let names = names(&ir);
    // The call is specialized and the generic template is not emitted.
    assert!(names.contains(&"identity__Int"), "names: {names:?}");
    assert!(!names.contains(&"identity"), "names: {names:?}");
    // The specialization is fully concrete.
    let spec = ir
        .functions
        .iter()
        .find(|function| function.name == "identity__Int")
        .expect("identity__Int");
    assert_eq!(spec.ret, Type::Int);
    assert_eq!(spec.params[0].ty, Type::Int);
}

#[test]
fn a_specialization_is_emitted_once() {
    let mut identity = function(
        "identity",
        vec![param("x", Type::Var("T".to_string()))],
        Type::Var("T".to_string()),
        vec![value(var("x"))],
    );
    identity.type_params.push("T".to_string());
    let inner = call(var("identity"), vec![number(42)]);
    let ir = lowered(program(vec![
        identity,
        function(
            "main",
            vec![],
            Type::Int,
            vec![value(call(var("identity"), vec![inner]))],
        ),
    ]));
    let count = names(&ir).iter().filter(|n| **n == "identity__Int").count();
    assert_eq!(count, 1);
}

#[test]
fn top_level_functions_are_not_captured() {
    let f = lambda(
        vec![param("x", Type::Int)],
        Type::Int,
        vec![value(binary(
            BinaryOp::Add,
            call(var("helper"), vec![var("x")]),
            var("k"),
        ))],
    );
    let ir = lowered(program(vec![
        function(
            "helper",
            vec![param("x", Type::Int)],
            Type::Int,
            vec![value(var("x"))],
        ),
        function(
            "main",
            vec![],
            Type::Int,
            vec![
                bind("k", number(2)),
                bind("f", f),
                value(call(var("f"), vec![number(40)])),
            ],
        ),
    ]));
    let lambda = first_lambda(main_body(&ir)).expect("lambda");
    let IrExpr::Fn { captures, .. } = lambda else {
        panic!("expected Fn");
    };
    let names: Vec<&str> = captures.iter().map(|c| c.name.as_str()).collect();
    assert_eq!(names, vec!["k"]);
}

#[test]
fn preserves_non_tail_block_expressions_in_source_order() {
    let ir = lowered(program(vec![
        function(
            "mark",
            vec![param("n", Type::Int)],
            Type::Int,
            vec![value(var("n"))],
        ),
        function(
            "main",
            vec![],
            Type::Int,
            vec![
                value(call(var("mark"), vec![number(1)])),
                bind("a", number(2)),
                value(call(var("mark"), vec![number(2)])),
                value(var("a")),
            ],
        ),
    ]));
    let IrExpr::Let {
        name: stmt0,
        value: first,
        next,
        ..
    } = main_body(&ir)
    else {
        panic!("expected leading statement let");
    };
    assert!(stmt0.starts_with("$stmt"));
    let IrExpr::Call { callee, args, ret } = first.as_ref() else {
        panic!("expected first call");
    };
    let IrExpr::FunctionRef { name, .. } = callee.as_ref() else {
        panic!("expected first direct call");
    };
    assert_eq!(name, "mark");
    assert_eq!(ret, &Type::Int);
    assert!(matches!(args.as_slice(), [IrExpr::Int(1)]));

    let IrExpr::Let {
        name, value, next, ..
    } = next.as_ref()
    else {
        panic!("expected user let binding");
    };
    assert_eq!(name, "a");
    assert!(matches!(value.as_ref(), IrExpr::Int(2)));

    let IrExpr::Let {
        name: stmt1,
        value: second,
        next,
        ..
    } = next.as_ref()
    else {
        panic!("expected second statement let");
    };
    assert!(stmt1.starts_with("$stmt"));
    let IrExpr::Call { callee, args, ret } = second.as_ref() else {
        panic!("expected second call");
    };
    let IrExpr::FunctionRef { name, .. } = callee.as_ref() else {
        panic!("expected second direct call");
    };
    assert_eq!(name, "mark");
    assert_eq!(ret, &Type::Int);
    assert!(matches!(args.as_slice(), [IrExpr::Int(2)]));

    let IrExpr::Var { name, ty } = next.as_ref() else {
        panic!("expected tail expression");
    };
    assert_eq!(name, "a");
    assert_eq!(ty, &Type::Int);
}

#[test]
fn preserves_non_tail_never_expressions() {
    let ir = lowered(program(vec![function(
        "main",
        vec![],
        Type::Unit,
        vec![
            value(Expr::Panic {
                message: Box::new(Expr::String("boom".to_string(), span())),
                span: span(),
            }),
            value(Expr::Unit(span())),
        ],
    )]));
    let IrExpr::Let { value, next, .. } = main_body(&ir) else {
        panic!("expected statement let");
    };
    let IrExpr::Panic { message } = value.as_ref() else {
        panic!("expected panic statement");
    };
    assert!(matches!(message.as_ref(), IrExpr::String(value) if value == "boom"));
    assert!(matches!(next.as_ref(), IrExpr::Unit));
}

#[test]
fn comparison_temp_names_do_not_shadow_user_bindings() {
    let ir = lowered(program(vec![function(
        "main",
        vec![],
        Type::Int,
        vec![
            bind("cmp0", number(41)),
            value(binary(BinaryOp::Gt, var("cmp0"), number(0))),
            value(var("cmp0")),
        ],
    )]));
    let IrExpr::Let {
        name, value, next, ..
    } = main_body(&ir)
    else {
        panic!("expected user let binding");
    };
    assert_eq!(name, "cmp0");
    assert!(matches!(value.as_ref(), IrExpr::Int(41)));

    let IrExpr::Let {
        name: stmt, next, ..
    } = next.as_ref()
    else {
        panic!("expected comparison statement temp");
    };
    assert!(stmt.starts_with("$stmt"));

    let IrExpr::Var { name, ty } = next.as_ref() else {
        panic!("expected tail variable");
    };
    assert_eq!(name, "cmp0");
    assert_eq!(ty, &Type::Int);
}

#[test]
fn bodies_have_the_types_of_what_they_are_lowered_from() {
    let greater = || binary(BinaryOp::Gt, number(2), number(1));
    let ir = lowered(program(vec![
        function("sum", vec![], Type::Int, vec![value(binary(BinaryOp::Add, number(1), number(2)))]),
        function("above", vec![], Type::Bool, vec![value(greater())]),
        function("main", vec![], Type::Bool, vec![bind("x", greater()), value(var("x"))]),
    ]));
    assert_eq!(ir.functions.iter().find(|f| f.name == "sum").unwrap().body.ty(), Type::Int);
    assert_eq!(ir.functions.iter().find(|f| f.name == "above").unwrap().body.ty(), Type::Bool);
    assert_eq!(main_body(&ir).ty(), Type::Bool);
}

#[test]
fn float_literals_lose_redundant_zeros() {
    for (written, kept) in [
        ("2.50", "2.5"),
        ("2.0", "2"),
        ("010.5", "10.5"),
        ("000.000", "0"),
        ("0.05", "0.05"),
        ("100.0", "100"),
    ] {
        assert_eq!(shorten(written), kept);
        let ir = lowered(program(vec![function(
            "main",
            vec![],
            Type::Float,
            vec![value(Expr::Float(written.to_string(), span()))],
        )]));
        let IrExpr::Float(text) = main_body(&ir) else {
            panic!("expected a float");
        };
        assert_eq!(text, kept);
    }
}

#[test]
fn operators_call_the_impl_of_their_trait() {
    let ir = lowered(program(vec![function(
        "main",
        vec![],
        Type::Int,
        vec![value(binary(BinaryOp::Add, number(1), number(2)))],
    )]));
    let IrExpr::Call { callee, args, ret } = main_body(&ir) else {
        panic!("expected a call");
    };
    let IrExpr::FunctionRef { name, .. } = callee.as_ref() else {
        panic!("expected a direct call");
    };
    assert_eq!(name, "Add__Int__add");
    assert_eq!(ret, &Type::Int);
    assert!(matches!(args.as_slice(), [IrExpr::Int(1), IrExpr::Int(2)]));
    let add = ir
        .functions
        .iter()
        .find(|f| f.name == "Add__Int__add")
        .expect("the impl is specialized");
    let IrExpr::Intrinsic { name, .. } = &add.body else {
        panic!("expected an intrinsic");
    };
    assert_eq!(name, "i32_add");
}

#[test]
fn unreached_imports_are_dropped_and_roots_are_kept() {
    let mut used = function("used", vec![], Type::Int, vec![value(number(1))]);
    used.is_public = true;
    used.module_segments.push("lib".to_string());
    let mut unused = function("unused", vec![], Type::Int, vec![value(number(2))]);
    unused.is_public = true;
    unused.module_segments.push("lib".to_string());
    let path = Expr::Path {
        segments: vec!["lib".to_string(), "used".to_string()],
        span: span(),
    };
    let ir = lowered(program(vec![
        used,
        unused,
        function("helper", vec![], Type::Int, vec![value(number(3))]),
        function("main", vec![], Type::Int, vec![value(call(path, vec![]))]),
    ]));
    assert_eq!(names(&ir), vec!["used", "helper", "main"]);
}

#[test]
fn bare_names_do_not_cross_modules() {
    let mut inner = function("inner", vec![], Type::Int, vec![value(number(1))]);
    inner.is_public = true;
    inner.module_segments.push("lib".to_string());
    let functions = vec![inner];
    assert_eq!(
        resolve_name(&functions, "inner", &vec![]),
        Resolved::BareImported(0)
    );
    assert_eq!(
        resolve_name(&functions, "inner", &vec!["lib".to_string()]),
        Resolved::One(0)
    );
}

#[test]
fn self_tail_calls_become_jumps() {
    let again = call(var("loop_on"), vec![var("n")]);
    let ir = lowered(program(vec![
        function(
            "loop_on",
            vec![param("n", Type::Int)],
            Type::Int,
            vec![value(Expr::If {
                cond: Box::new(Expr::Bool(true, span())),
                then: block(vec![value(again)]),
                els: block(vec![value(number(0))]),
                span: span(),
            })],
        ),
        function(
            "main",
            vec![],
            Type::Int,
            vec![value(call(var("loop_on"), vec![number(1)]))],
        ),
    ]));
    let IrExpr::If { then, els, .. } = &ir.functions[0].body else {
        panic!("expected an if");
    };
    let IrExpr::TailSelfCall { args, ty } = then.as_ref() else {
        panic!("expected a jump");
    };
    assert_eq!(args.len(), 1);
    assert_eq!(ty, &Type::Int);
    assert!(matches!(els.as_ref(), IrExpr::Int(0)));
    // A call of another function stays a call.
    assert!(matches!(main_body(&ir), IrExpr::Call { .. }));
    // A second run finds nothing to change.
    let text = emit_text(&ir);
    assert_eq!(emit_text(&rewrite_self_tail_calls(ir)), text);
}

fn point() -> RecordDecl {
    RecordDecl {
        name: "Point".to_string(),
        name_span: span(),
        type_params: vec![],
        module: None,
        fields: vec![
            RecordField {
                name: "x".to_string(),
                ty: Type::Int,
            },
            RecordField {
                name: "y".to_string(),
                ty: Type::Bool,
            },
        ],
    }
}

fn field(name: &str, e: Expr) -> FieldInit {
    FieldInit {
        name: name.to_string(),
        name_span: span(),
        value: e,
    }
}

fn point_literal(fields: Vec<FieldInit>) -> Program {
    let literal = Expr::RecordLiteral {
        name: "Point".to_string(),
        fields,
        span: span(),
    };
    let mut p = program(vec![function(
        "main",
        vec![],
        Type::Enum("Point".to_string(), vec![]),
        vec![value(literal)],
    )]);
    p.records.push(point());
    p
}

#[test]
fn record_fields_in_order_are_stored_directly() {
    let ir = lowered(point_literal(vec![
        field("x", number(1)),
        field("y", Expr::Bool(true, span())),
    ]));
    let IrExpr::RecordValue { fields, .. } = main_body(&ir) else {
        panic!("expected a record");
    };
    assert!(matches!(
        fields.as_slice(),
        [IrExpr::Int(1), IrExpr::Bool(true)]
    ));
}

#[test]
fn record_fields_out_of_order_are_evaluated_as_written() {
    let ir = lowered(point_literal(vec![
        field("y", Expr::Bool(true, span())),
        field("x", number(1)),
    ]));
    let IrExpr::Let {
        name: first,
        value,
        next,
        ..
    } = main_body(&ir)
    else {
        panic!("expected the first temporary");
    };
    assert_eq!(first, "$fld0");
    assert!(matches!(value.as_ref(), IrExpr::Bool(true)));
    let IrExpr::Let {
        name: second,
        value,
        next,
        ..
    } = next.as_ref()
    else {
        panic!("expected the second temporary");
    };
    assert_eq!(second, "$fld1");
    assert!(matches!(value.as_ref(), IrExpr::Int(1)));
    let IrExpr::RecordValue { fields, .. } = next.as_ref() else {
        panic!("expected a record");
    };
    let stored: Vec<&str> = fields
        .iter()
        .map(|f| match f {
            IrExpr::Var { name, .. } => name.as_str(),
            _ => "?",
        })
        .collect();
    assert_eq!(stored, vec!["$fld1", "$fld0"]);
}

#[test]
fn field_access_knows_its_slot() {
    let literal = Expr::RecordLiteral {
        name: "Point".to_string(),
        fields: vec![field("x", number(1)), field("y", Expr::Bool(true, span()))],
        span: span(),
    };
    let access = Expr::Field {
        target: Box::new(literal),
        name: "y".to_string(),
        span: span(),
    };
    let mut p = program(vec![function(
        "main",
        vec![],
        Type::Bool,
        vec![value(access)],
    )]);
    p.records.push(point());
    let ir = lowered(p);
    let IrExpr::FieldAccess {
        index, field_ty, ..
    } = main_body(&ir)
    else {
        panic!("expected a field access");
    };
    assert_eq!(*index, 1);
    assert_eq!(field_ty, &Type::Bool);
}

#[test]
fn variants_and_patterns_carry_their_tags() {
    let color = EnumDecl {
        name: "Color".to_string(),
        name_span: span(),
        type_params: vec![],
        module: None,
        lang_item: None,
        variants: vec![
            EnumVariant {
                name: "Red".to_string(),
                name_span: span(),
                fields: vec![],
            },
            EnumVariant {
                name: "Mix".to_string(),
                name_span: span(),
                fields: vec![Type::Int],
            },
        ],
    };
    let mix = call(
        Expr::TypePath {
            segments: vec!["Color".to_string(), "Mix".to_string()],
            span: span(),
        },
        vec![number(7)],
    );
    let arm = MatchArm {
        pattern: Pattern::Variant {
            enum_name: None,
            variant: "Mix".to_string(),
            fields: vec![FieldBinding::Name("n".to_string())],
            span: span(),
        },
        guard: None,
        body: var("n"),
        span: span(),
    };
    let rest = MatchArm {
        pattern: Pattern::Wildcard(span()),
        guard: None,
        body: number(0),
        span: span(),
    };
    let mut p = program(vec![function(
        "main",
        vec![],
        Type::Int,
        vec![value(Expr::Match {
            scrutinee: Box::new(mix),
            arms: vec![arm, rest],
            span: span(),
        })],
    )]);
    p.enums.push(color);
    let ir = lowered(p);
    let IrExpr::Match {
        scrutinee,
        arms,
        ty,
    } = main_body(&ir)
    else {
        panic!("expected a match");
    };
    assert_eq!(ty, &Type::Int);
    let IrExpr::EnumValue { tag, payload, .. } = scrutinee.as_ref() else {
        panic!("expected a variant");
    };
    assert_eq!(*tag, 1);
    assert!(matches!(payload.as_slice(), [IrExpr::Int(7)]));
    assert!(matches!(&arms[0].body, IrExpr::Var { name, ty } if name == "n" && ty == &Type::Int));
}

fn failure() -> EnumDecl {
    let variant = |name: &str| EnumVariant {
        name: name.to_string(),
        name_span: span(),
        fields: vec![],
    };
    EnumDecl {
        name: "Failure".to_string(),
        name_span: span(),
        type_params: vec![],
        module: None,
        lang_item: None,
        variants: vec![variant("Slow"), variant("Broken")],
    }
}

#[test]
fn catch_arms_know_the_error_thrown_under_a_branch() {
    let thrown = Expr::Throw {
        value: Box::new(Expr::TypePath {
            segments: vec!["Failure".to_string(), "Broken".to_string()],
            span: span(),
        }),
        span: span(),
    };
    let body = Expr::If {
        cond: Box::new(Expr::Bool(true, span())),
        then: block(vec![value(thrown)]),
        els: block(vec![value(number(1))]),
        span: span(),
    };
    let arm = MatchArm {
        pattern: Pattern::Variant {
            enum_name: None,
            variant: "Broken".to_string(),
            fields: vec![],
            span: span(),
        },
        guard: None,
        body: number(2),
        span: span(),
    };
    let mut p = program(vec![function(
        "main",
        vec![],
        Type::Int,
        vec![value(Expr::Try {
            body: block(vec![value(body)]),
            arms: vec![arm],
            span: span(),
        })],
    )]);
    p.enums.push(failure());
    let ir = lowered(p);
    let IrExpr::Try { arms, ty, .. } = main_body(&ir) else {
        panic!("expected a try");
    };
    assert_eq!(ty, &Type::Int);
    assert!(matches!(
        &arms[0].pattern,
        IrPattern::Variant { variant, tag: 1, .. } if variant == "Broken"
    ));
}

#[test]
fn throwing_sites_of_a_test_are_reported() {
    let thrown = Expr::Throw {
        value: Box::new(Expr::TypePath {
            segments: vec!["Failure".to_string(), "Slow".to_string()],
            span: span(),
        }),
        span: span(),
    };
    let mut test = function("a_test", vec![], Type::Unit, vec![value(thrown)]);
    test.is_test = true;
    let mut p = program(vec![test]);
    p.enums.push(failure());
    let ir = lowered(p);
    let IrExpr::Try { body, arms, .. } = &ir.functions[0].body else {
        panic!("expected a try");
    };
    assert!(matches!(body.as_ref(), IrExpr::Throw { .. }));
    let IrExpr::Let { value, next, .. } = &arms[0].body else {
        panic!("expected a report");
    };
    assert!(matches!(
        value.as_ref(),
        IrExpr::Platform { name, .. } if name == "io.write_stderr"
    ));
    assert!(matches!(next.as_ref(), IrExpr::Panic { .. }));
}
