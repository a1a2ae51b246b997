//! The result type of every node.

use emela::ir::IrExpr;
use emela::types::{BinaryOp, EffectRow, FunctionType, Type};

fn fn_ty(params: Vec<Type>, ret: Type) -> FunctionType {
    FunctionType {
        params,
        ret: Box::new(ret),
        throws: None,
        effects: EffectRow::default(),
    }
}

#[test]
fn ty_is_total_over_variants() {
    assert_eq!(IrExpr::Int(1).ty(), Type::Int);
    assert_eq!(IrExpr::Float("1.0".into()).ty(), Type::Float);
    assert_eq!(IrExpr::Bool(true).ty(), Type::Bool);
    assert_eq!(IrExpr::String("x".into()).ty(), Type::String);
    assert_eq!(IrExpr::Unit.ty(), Type::Unit);
    assert_eq!(
        IrExpr::Array {
            elem_ty: Type::Int,
            elems: vec![IrExpr::Int(1)]
        }
        .ty(),
        Type::Array(Box::new(Type::Int))
    );
    assert_eq!(
        IrExpr::Var {
            name: "x".into(),
            ty: Type::Bool
        }
        .ty(),
        Type::Bool
    );
    assert_eq!(
        IrExpr::FunctionRef {
            name: "f".into(),
            sig: fn_ty(vec![Type::Int], Type::Int)
        }
        .ty(),
        Type::Function(fn_ty(vec![Type::Int], Type::Int))
    );
    assert_eq!(
        IrExpr::Let {
            name: "x".into(),
            value_ty: Type::Int,
            value: Box::new(IrExpr::Int(1)),
            next: Box::new(IrExpr::Bool(true)),
        }
        .ty(),
        Type::Bool
    );
    assert_eq!(
        IrExpr::Call {
            callee: Box::new(IrExpr::FunctionRef {
                name: "f".into(),
                sig: fn_ty(vec![], Type::Float)
            }),
            args: vec![],
            ret: Type::Float,
        }
        .ty(),
        Type::Float
    );
    assert_eq!(
        IrExpr::Binary {
            op: BinaryOp::Lt,
            ty: Type::Int,
            left: Box::new(IrExpr::Int(1)),
            right: Box::new(IrExpr::Int(2)),
        }
        .ty(),
        Type::Bool
    );
    assert_eq!(
        IrExpr::Binary {
            op: BinaryOp::Add,
            ty: Type::Float,
            left: Box::new(IrExpr::Float("1.0".into())),
            right: Box::new(IrExpr::Float("2.0".into())),
        }
        .ty(),
        Type::Float
    );
}
