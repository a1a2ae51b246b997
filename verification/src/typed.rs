//! What the type checker finds out about a program.

use vstd::prelude::*;

use crate::types::{BinaryOp, EffectRow, Type};

verus! {

/// The checked signature of a function.
#[derive(Debug)]
pub struct TypedFunction {
    pub params: Vec<Type>,
    pub ret: Type,
    pub throws: Option<Type>,
    /// The declared effects.
    pub effects: EffectRow,
    /// The effects that the body uses.
    pub body_effects: EffectRow,
}

/// The trait method that an operator stands for.
#[derive(Debug)]
pub struct Operator {
    pub op: BinaryOp,
    pub trait_name: String,
    pub method: String,
}

/// A program that has been type-checked.
#[derive(Debug)]
pub struct TypedProgram {
    /// In the order of the program's functions.
    pub functions: Vec<TypedFunction>,
    pub operators: Vec<Operator>,
    /// The module of the core prelude, which is imported everywhere.
    pub core_module: String,
}

} // verus!
