//! The Emela intermediate representation.
//!
//! The IR is the boundary between the frontend (source to IR) and code
//! generation (IR to artifact). Every node carries enough type information
//! that [`IrExpr::ty`] is total: backends need concrete types to pick
//! representations, and the frontend already computes them during lowering.

use vstd::prelude::*;

use crate::types::{opt_ty, tys, BinaryOp, EffectRow, FnTy, FunctionType, Ty, Type};

verus! {

#[derive(Debug)]
pub struct IrProgram {
    pub functions: Vec<IrFunction>,
}

#[derive(Debug)]
pub struct IrParam {
    pub name: String,
    pub ty: Type,
}

/// A variable captured by a closure, with its type. The order of this list is
/// the closure's environment layout: backends store and load captures in it.
#[derive(Debug)]
pub struct IrCapture {
    pub name: String,
    pub ty: Type,
}

#[derive(Debug)]
pub struct IrFunction {
    pub name: String,
    pub params: Vec<IrParam>,
    pub ret: Type,
    /// The error type this function may throw, if any. When set, the function
    /// reports on the error channel in addition to its value channel.
    pub throws: Option<Type>,
    pub effects: EffectRow,
    pub body: IrExpr,
}

#[derive(Debug)]
pub enum IrExpr {
    Int(i32),
    /// A `Float` literal, by the decimal text of its value.
    Float(String),
    Bool(bool),
    String(String),
    /// A `Char` literal as a Unicode scalar value.
    Char(u32),
    Unit,
    Array { elem_ty: Type, elems: Vec<IrExpr> },
    Var { name: String, ty: Type },
    FunctionRef { name: String, sig: FunctionType },
    Let { name: String, value_ty: Type, value: Box<IrExpr>, next: Box<IrExpr> },
    Call { callee: Box<IrExpr>, args: Vec<IrExpr>, ret: Type },
    /// A call to a platform function, resolved by the backend's runtime.
    /// `name` is the canonical platform name, e.g. `io.write_stdout`; `throws`
    /// is the error type the host may report.
    Platform { name: String, args: Vec<IrExpr>, ret: Type, throws: Option<Type> },
    /// A call to an intrinsic, inlined by the backend to a native instruction.
    /// `name` is the intrinsic's bare name, e.g. `i32_add`. Pure.
    Intrinsic { name: String, args: Vec<IrExpr>, ret: Type },
    Fn {
        params: Vec<IrParam>,
        ret: Type,
        throws: Option<Type>,
        effects: EffectRow,
        captures: Vec<IrCapture>,
        body: Box<IrExpr>,
    },
    Binary { op: BinaryOp, ty: Type, left: Box<IrExpr>, right: Box<IrExpr> },
    /// `if cond { then } else { els }`. Both branches have type `ty`.
    If { cond: Box<IrExpr>, then: Box<IrExpr>, els: Box<IrExpr>, ty: Type },
    /// `Char::from_code(n)`: codepoint Int to Char.
    CharFromCode(Box<IrExpr>),
    /// `String::from_char(c)`: a one-character String.
    StringFromChar(Box<IrExpr>),
    /// `a ++ b`: String concatenation.
    Concat { left: Box<IrExpr>, right: Box<IrExpr> },
    /// An enum or `Option` value. `tag` selects the variant in declaration
    /// order; `payload` carries its fields.
    EnumValue { ty: Type, variant: String, tag: u32, payload: Vec<IrExpr> },
    /// A record value, its fields in declaration order.
    RecordValue { ty: Type, fields: Vec<IrExpr> },
    /// The field of a record at a declaration-order index.
    FieldAccess { target: Box<IrExpr>, index: u32, field_ty: Type },
    /// A `match` over an enum or `Option`. Arms are tried top to bottom.
    Match { scrutinee: Box<IrExpr>, arms: Vec<IrArm>, ty: Type },
    /// `throw e`: raise `e` on the error channel. Type `Never`.
    Throw { value: Box<IrExpr> },
    /// `try { body } catch { arms }`: evaluate `body`, routing any thrown error
    /// to `arms`. `err_name` binds the caught error once it is managed.
    Try { body: Box<IrExpr>, arms: Vec<IrArm>, ty: Type, err_name: Option<String> },
    /// `expr?`: take the success value, short-circuiting the enclosing function
    /// on error (`Throws`) or `None` (`Option`).
    Question { value: Box<IrExpr>, mode: QuestionMode, ty: Type },
    /// `panic(msg)`: unrecoverable abort. Type `Never`.
    Panic { message: Box<IrExpr> },
    /// A self-recursive call in tail position: a jump to the function's entry.
    TailSelfCall { args: Vec<IrExpr>, ty: Type },
    /// The value, with its reference count incremented.
    Retain { value: Box<IrExpr> },
    /// Decrement the reference count of a binding, then continue.
    Release { name: String, ty: Type, next: Box<IrExpr> },
}

/// One arm of a `match` or `try`/`catch`.
#[derive(Debug)]
pub struct IrArm {
    pub pattern: IrPattern,
    pub guard: Option<IrExpr>,
    pub body: IrExpr,
}

/// A pattern matched against an enum or `Option` scrutinee.
#[derive(Debug)]
pub enum IrPattern {
    /// A specific variant, selected by `tag`. Each payload field is bound by
    /// `Some((name, ty))` or ignored with `None`.
    Variant { variant: String, tag: u32, bindings: Vec<Option<(String, Type)>> },
    /// A wildcard (`_`) or catch-all binding, which binds the whole scrutinee.
    Wildcard { binding: Option<(String, Type)> },
}

/// What `?` propagates.
#[derive(Debug, Clone, Copy, PartialEq, Eq, Structural)]
pub enum QuestionMode {
    /// Propagate a thrown error to the enclosing `throws` channel.
    Throws,
    /// Propagate `None` to the enclosing `Option` return.
    Option,
}

/// A name with its type: what a parameter, a capture or a pattern binding says.
#[verifier::ext_equal]
pub struct Bind {
    pub name: Seq<char>,
    pub ty: Ty,
}

/// What an [`IrExpr`] says: the same tree over mathematical sequences.
#[verifier::ext_equal]
pub enum Node {
    Int(i32),
    Float(Seq<char>),
    Bool(bool),
    String(Seq<char>),
    Char(u32),
    Unit,
    Array { elem_ty: Ty, elems: Seq<Node> },
    Var { name: Seq<char>, ty: Ty },
    FunctionRef { name: Seq<char>, sig: FnTy },
    Let { name: Seq<char>, value_ty: Ty, value: Box<Node>, next: Box<Node> },
    Call { callee: Box<Node>, args: Seq<Node>, ret: Ty },
    Platform { name: Seq<char>, args: Seq<Node>, ret: Ty, throws: Option<Ty> },
    Intrinsic { name: Seq<char>, args: Seq<Node>, ret: Ty },
    Fn {
        params: Seq<Bind>,
        ret: Ty,
        throws: Option<Ty>,
        effects: Seq<Seq<char>>,
        captures: Seq<Bind>,
        body: Box<Node>,
    },
    Binary { op: BinaryOp, ty: Ty, left: Box<Node>, right: Box<Node> },
    If { cond: Box<Node>, then: Box<Node>, els: Box<Node>, ty: Ty },
    CharFromCode(Box<Node>),
    StringFromChar(Box<Node>),
    Concat { left: Box<Node>, right: Box<Node> },
    EnumValue { ty: Ty, variant: Seq<char>, tag: u32, payload: Seq<Node> },
    RecordValue { ty: Ty, fields: Seq<Node> },
    FieldAccess { target: Box<Node>, index: u32, field_ty: Ty },
    Match { scrutinee: Box<Node>, arms: Seq<ArmNode>, ty: Ty },
    Throw { value: Box<Node> },
    Try { body: Box<Node>, arms: Seq<ArmNode>, ty: Ty, err_name: Option<Seq<char>> },
    Question { value: Box<Node>, mode: QuestionMode, ty: Ty },
    Panic { message: Box<Node> },
    TailSelfCall { args: Seq<Node>, ty: Ty },
    Retain { value: Box<Node> },
    Release { name: Seq<char>, ty: Ty, next: Box<Node> },
}

/// What an [`IrArm`] says.
#[verifier::ext_equal]
pub struct ArmNode {
    pub pattern: Pat,
    pub guard: Option<Box<Node>>,
    pub body: Box<Node>,
}

/// What an [`IrPattern`] says.
#[verifier::ext_equal]
pub enum Pat {
    Variant { variant: Seq<char>, tag: u32, bindings: Seq<Option<Bind>> },
    Wildcard { binding: Option<Bind> },
}

/// What an [`IrFunction`] says.
#[verifier::ext_equal]
pub struct FnNode {
    pub name: Seq<char>,
    pub params: Seq<Bind>,
    pub ret: Ty,
    pub throws: Option<Ty>,
    pub effects: Seq<Seq<char>>,
    pub body: Node,
}

impl IrParam {
    pub open spec fn view(&self) -> Bind {
        Bind { name: self.name@, ty: self.ty@ }
    }

    /// A copy of the parameter.
    pub fn copy(&self) -> (r: IrParam)
        ensures
            r@ == self@,
    {
        IrParam { name: self.name.clone(), ty: self.ty.copy() }
    }
}

impl IrCapture {
    pub open spec fn view(&self) -> Bind {
        Bind { name: self.name@, ty: self.ty@ }
    }

    /// A copy of the capture.
    pub fn copy(&self) -> (r: IrCapture)
        ensures
            r@ == self@,
    {
        IrCapture { name: self.name.clone(), ty: self.ty.copy() }
    }
}

/// What a list of parameters says.
pub open spec fn param_binds(s: Seq<IrParam>) -> Seq<Bind> {
    s.map_values(|p: IrParam| p@)
}

/// What a list of captures says.
pub open spec fn capture_binds(s: Seq<IrCapture>) -> Seq<Bind> {
    s.map_values(|c: IrCapture| c@)
}

/// What an optional pattern binding says.
pub open spec fn opt_bind(b: Option<(String, Type)>) -> Option<Bind> {
    match b {
        Some(b) => Some(Bind { name: b.0@, ty: b.1@ }),
        None => None,
    }
}

/// What the bindings of a variant pattern say.
pub open spec fn opt_binds(s: Seq<Option<(String, Type)>>) -> Seq<Option<Bind>> {
    s.map_values(|b: Option<(String, Type)>| opt_bind(b))
}

impl IrPattern {
    pub open spec fn view(&self) -> Pat {
        match self {
            IrPattern::Variant { variant, tag, bindings } => Pat::Variant {
                variant: variant@,
                tag: *tag,
                bindings: opt_binds(bindings@),
            },
            IrPattern::Wildcard { binding } => Pat::Wildcard { binding: opt_bind(*binding) },
        }
    }
}

/// What an optional name says.
pub open spec fn opt_text(s: Option<String>) -> Option<Seq<char>> {
    match s {
        Some(s) => Some(s@),
        None => None,
    }
}

impl IrArm {
    pub open spec fn view(&self) -> ArmNode
        decreases self,
    {
        ArmNode {
            pattern: self.pattern@,
            guard: match self.guard {
                Some(g) => Some(Box::new(g.view())),
                None => None,
            },
            body: Box::new(self.body.view()),
        }
    }
}

impl IrExpr {
    pub open spec fn view(&self) -> Node
        decreases self,
    {
        match self {
            IrExpr::Int(v) => Node::Int(*v),
            IrExpr::Float(v) => Node::Float(v@),
            IrExpr::Bool(v) => Node::Bool(*v),
            IrExpr::String(v) => Node::String(v@),
            IrExpr::Char(v) => Node::Char(*v),
            IrExpr::Unit => Node::Unit,
            IrExpr::Array { elem_ty, elems } => Node::Array {
                elem_ty: elem_ty@,
                elems: nodes(elems@),
            },
            IrExpr::Var { name, ty } => Node::Var { name: name@, ty: ty@ },
            IrExpr::FunctionRef { name, sig } => Node::FunctionRef { name: name@, sig: sig@ },
            IrExpr::Let { name, value_ty, value, next } => Node::Let {
                name: name@,
                value_ty: value_ty@,
                value: Box::new(value.view()),
                next: Box::new(next.view()),
            },
            IrExpr::Call { callee, args, ret } => Node::Call {
                callee: Box::new(callee.view()),
                args: nodes(args@),
                ret: ret@,
            },
            IrExpr::Platform { name, args, ret, throws } => Node::Platform {
                name: name@,
                args: nodes(args@),
                ret: ret@,
                throws: opt_ty(*throws),
            },
            IrExpr::Intrinsic { name, args, ret } => Node::Intrinsic {
                name: name@,
                args: nodes(args@),
                ret: ret@,
            },
            IrExpr::Fn { params, ret, throws, effects, captures, body } => Node::Fn {
                params: param_binds(params@),
                ret: ret@,
                throws: opt_ty(*throws),
                effects: effects@,
                captures: capture_binds(captures@),
                body: Box::new(body.view()),
            },
            IrExpr::Binary { op, ty, left, right } => Node::Binary {
                op: *op,
                ty: ty@,
                left: Box::new(left.view()),
                right: Box::new(right.view()),
            },
            IrExpr::If { cond, then, els, ty } => Node::If {
                cond: Box::new(cond.view()),
                then: Box::new(then.view()),
                els: Box::new(els.view()),
                ty: ty@,
            },
            IrExpr::CharFromCode(v) => Node::CharFromCode(Box::new(v.view())),
            IrExpr::StringFromChar(v) => Node::StringFromChar(Box::new(v.view())),
            IrExpr::Concat { left, right } => Node::Concat {
                left: Box::new(left.view()),
                right: Box::new(right.view()),
            },
            IrExpr::EnumValue { ty, variant, tag, payload } => Node::EnumValue {
                ty: ty@,
                variant: variant@,
                tag: *tag,
                payload: nodes(payload@),
            },
            IrExpr::RecordValue { ty, fields } => Node::RecordValue {
                ty: ty@,
                fields: nodes(fields@),
            },
            IrExpr::FieldAccess { target, index, field_ty } => Node::FieldAccess {
                target: Box::new(target.view()),
                index: *index,
                field_ty: field_ty@,
            },
            IrExpr::Match { scrutinee, arms, ty } => Node::Match {
                scrutinee: Box::new(scrutinee.view()),
                arms: arm_nodes(arms@),
                ty: ty@,
            },
            IrExpr::Throw { value } => Node::Throw { value: Box::new(value.view()) },
            IrExpr::Try { body, arms, ty, err_name } => Node::Try {
                body: Box::new(body.view()),
                arms: arm_nodes(arms@),
                ty: ty@,
                err_name: opt_text(*err_name),
            },
            IrExpr::Question { value, mode, ty } => Node::Question {
                value: Box::new(value.view()),
                mode: *mode,
                ty: ty@,
            },
            IrExpr::Panic { message } => Node::Panic { message: Box::new(message.view()) },
            IrExpr::TailSelfCall { args, ty } => Node::TailSelfCall {
                args: nodes(args@),
                ty: ty@,
            },
            IrExpr::Retain { value } => Node::Retain { value: Box::new(value.view()) },
            IrExpr::Release { name, ty, next } => Node::Release {
                name: name@,
                ty: ty@,
                next: Box::new(next.view()),
            },
        }
    }
}

/// What a list of expressions says.
pub open spec fn nodes(s: Seq<IrExpr>) -> Seq<Node>
    decreases s,
{
    Seq::new(
        s.len(),
        |i: int|
            if 0 <= i < s.len() {
                s[i].view()
            } else {
                Node::Unit
            },
    )
}

/// What a list of arms says.
pub open spec fn arm_nodes(s: Seq<IrArm>) -> Seq<ArmNode>
    decreases s,
{
    Seq::new(
        s.len(),
        |i: int|
            if 0 <= i < s.len() {
                s[i].view()
            } else {
                ArmNode {
                    pattern: Pat::Wildcard { binding: None },
                    guard: None,
                    body: Box::new(Node::Unit),
                }
            },
    )
}

impl IrFunction {
    pub open spec fn view(&self) -> FnNode {
        FnNode {
            name: self.name@,
            params: param_binds(self.params@),
            ret: self.ret@,
            throws: opt_ty(self.throws),
            effects: self.effects@,
            body: self.body@,
        }
    }
}

impl IrProgram {
    /// What the functions of the program say.
    pub open spec fn view(&self) -> Seq<FnNode> {
        self.functions@.map_values(|f: IrFunction| f@)
    }
}

/// The types of a list of bindings.
pub open spec fn bind_tys(s: Seq<Bind>) -> Seq<Ty> {
    s.map_values(|b: Bind| b.ty)
}

/// The result type of an expression.
pub open spec fn node_ty(e: Node) -> Ty
    decreases e,
{
    match e {
        Node::Int(_) => Ty::Int,
        Node::Float(_) => Ty::Float,
        Node::Bool(_) => Ty::Bool,
        Node::String(_) | Node::StringFromChar(_) | Node::Concat { .. } => Ty::String,
        Node::Char(_) | Node::CharFromCode(_) => Ty::Char,
        Node::Unit => Ty::Unit,
        Node::Array { elem_ty, .. } => Ty::Array(Box::new(elem_ty)),
        Node::Var { ty, .. } => ty,
        Node::FunctionRef { sig, .. } => Ty::Function(sig),
        Node::Let { next, .. } => node_ty(*next),
        Node::Call { ret, .. } => ret,
        Node::Platform { ret, .. } => ret,
        Node::Intrinsic { ret, .. } => ret,
        Node::Fn { params, ret, throws, effects, .. } => Ty::Function(
            FnTy {
                params: bind_tys(params),
                ret: Box::new(ret),
                throws: match throws {
                    Some(t) => Some(Box::new(t)),
                    None => None,
                },
                effects,
            },
        ),
        Node::Binary { op, ty, .. } => match op {
            BinaryOp::Eq | BinaryOp::Lt | BinaryOp::Ne | BinaryOp::Gt | BinaryOp::Le
            | BinaryOp::Ge => Ty::Bool,
            _ => ty,
        },
        Node::EnumValue { ty, .. } => ty,
        Node::RecordValue { ty, .. } => ty,
        Node::FieldAccess { field_ty, .. } => field_ty,
        Node::Match { ty, .. } => ty,
        Node::Try { ty, .. } => ty,
        Node::If { ty, .. } => ty,
        Node::Question { ty, .. } => ty,
        Node::Throw { .. } | Node::Panic { .. } => Ty::Never,
        Node::TailSelfCall { ty, .. } => ty,
        Node::Retain { value } => node_ty(*value),
        Node::Release { next, .. } => node_ty(*next),
    }
}

/// The types of a list of parameters.
fn param_types(params: &Vec<IrParam>) -> (r: Vec<Type>)
    ensures
        tys(r@) == bind_tys(param_binds(params@)),
{
    let mut out: Vec<Type> = Vec::new();
    let mut i: usize = 0;
    while i < params.len()
        invariant
            i <= params.len(),
            out@.len() == i,
            forall|j: int| 0 <= j < i ==> (#[trigger] out@[j])@ == params@[j].ty@,
        decreases params.len() - i,
    {
        out.push(params[i].ty.copy());
        i += 1;
    }
    assert(tys(out@) =~= bind_tys(param_binds(params@)));
    out
}

impl IrExpr {
    /// The Emela result type of this expression. Total: every variant yields a
    /// type without re-running inference.
    pub fn ty(&self) -> (r: Type)
        ensures
            r@ == node_ty(self@),
        decreases self,
    {
        match self {
            IrExpr::Int(_) => Type::Int,
            IrExpr::Float(_) => Type::Float,
            IrExpr::Bool(_) => Type::Bool,
            IrExpr::String(_) | IrExpr::StringFromChar(_) | IrExpr::Concat { .. } => Type::String,
            IrExpr::Char(_) | IrExpr::CharFromCode(_) => Type::Char,
            IrExpr::Unit => Type::Unit,
            IrExpr::Array { elem_ty, .. } => Type::Array(Box::new(elem_ty.copy())),
            IrExpr::Var { ty, .. } => ty.copy(),
            IrExpr::FunctionRef { sig, .. } => Type::Function(sig.copy()),
            IrExpr::Let { next, .. } => next.ty(),
            IrExpr::Call { ret, .. } => ret.copy(),
            IrExpr::Platform { ret, .. } => ret.copy(),
            IrExpr::Intrinsic { ret, .. } => ret.copy(),
            IrExpr::Fn { params, ret, throws, effects, .. } => {
                let throws = match throws {
                    Some(t) => Some(Box::new(t.copy())),
                    None => None,
                };
                let sig = FunctionType {
                    params: param_types(params),
                    ret: Box::new(ret.copy()),
                    throws,
                    effects: effects.copy(),
                };
                assert(Ty::Function(sig@) =~= node_ty(self@));
                Type::Function(sig)
            },
            IrExpr::Binary { op, ty, .. } => match op {
                BinaryOp::Eq | BinaryOp::Lt | BinaryOp::Ne | BinaryOp::Gt | BinaryOp::Le
                | BinaryOp::Ge => Type::Bool,
                _ => ty.copy(),
            },
            IrExpr::EnumValue { ty, .. } => ty.copy(),
            IrExpr::RecordValue { ty, .. } => ty.copy(),
            IrExpr::FieldAccess { field_ty, .. } => field_ty.copy(),
            IrExpr::Match { ty, .. } => ty.copy(),
            IrExpr::Try { ty, .. } => ty.copy(),
            IrExpr::If { ty, .. } => ty.copy(),
            IrExpr::Question { ty, .. } => ty.copy(),
            IrExpr::Throw { .. } | IrExpr::Panic { .. } => Type::Never,
            IrExpr::TailSelfCall { ty, .. } => ty.copy(),
            IrExpr::Retain { value } => value.ty(),
            IrExpr::Release { next, .. } => next.ty(),
        }
    }
}

} // verus!
