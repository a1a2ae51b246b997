//! The syntax tree of a program.

use vstd::prelude::*;

use crate::source::Span;
use crate::strings::{no_text, owned};
use crate::types::{BinaryOp, EffectRow, Type};

verus! {

#[derive(Debug)]
pub struct Program {
    pub module: Option<String>,
    pub imports: Vec<Import>,
    pub functions: Vec<Function>,
    pub externs: Vec<Extern>,
    pub enums: Vec<EnumDecl>,
    /// `record` declarations.
    pub records: Vec<RecordDecl>,
    /// `trait` declarations.
    pub traits: Vec<TraitDecl>,
    /// `impl Trait for Type` blocks.
    pub impls: Vec<ImplDecl>,
    /// `effect` declarations. The operations themselves are
    /// desugared into `functions`/`externs`; this records the effect names in
    /// scope, for validating `uses { ... }` rows and `Name.op(...)` heads.
    pub effects: Vec<EffectDecl>,
}

/// An `effect Name { ... }` declaration: a capitalized, first-class
/// effect that owns a set of operations. An item within a module, like an enum.
#[derive(Debug)]
pub struct EffectDecl {
    pub name: String,
    pub name_span: Span,
}

/// An `enum` declaration.
#[derive(Debug)]
pub struct EnumDecl {
    pub name: String,
    pub name_span: Span,
    /// The type parameters of a generic enum, e.g. `T` in
    /// `enum List<T>`. Empty for a non-generic enum. They are in scope as types
    /// (`Type::Var`) within the variant payload types.
    pub type_params: Vec<String>,
    /// The declaring file's module path: a `trait` may be
    /// implemented for this type only in this module or the trait's module.
    pub module: Option<String>,
    /// The compiler-known role the declaration is tagged with, e.g. `option` for
    /// `@lang("option")`.
    pub lang_item: Option<String>,
    pub variants: Vec<EnumVariant>,
}

/// A `record` declaration: a named set of fields.
#[derive(Debug)]
pub struct RecordDecl {
    pub name: String,
    pub name_span: Span,
    /// The type parameters of a generic record. Empty for a non-generic one.
    pub type_params: Vec<String>,
    /// The declaring file's module path.
    pub module: Option<String>,
    pub fields: Vec<RecordField>,
}

/// One field of a record.
#[derive(Debug)]
pub struct RecordField {
    pub name: String,
    pub ty: Type,
}

/// A `trait` declaration: a named set of method signatures a type
/// may implement. `Self` inside the trait is `Type::Var("Self")`.
#[derive(Debug)]
pub struct TraitDecl {
    pub name: String,
    pub name_span: Span,
    /// The declaring file's module path (orphan rule).
    pub module: Option<String>,
    pub methods: Vec<TraitMethodSig>,
}

/// One method signature of a trait. `default_body` is `Some` for a
/// method with a default implementation, which an `impl` may omit.
#[derive(Debug)]
pub struct TraitMethodSig {
    pub name: String,
    pub name_span: Span,
    pub params: Vec<Param>,
    pub ret: Type,
    pub throws: Option<Type>,
    pub effects: EffectRow,
    pub default_body: Option<Block>,
}

/// An `impl Trait for Type { ... }` block. It asserts that `target`
/// satisfies `trait_name` and supplies the method bodies. `type_params`/`bounds`
/// are the impl's own parameters for a parameterized instance
/// (`impl<T: Show> Show for Array<T>`). Inside, `Self` and the impl's parameters
/// appear as `Type::Var`.
#[derive(Debug)]
pub struct ImplDecl {
    pub trait_name: String,
    pub trait_span: Span,
    pub target: Type,
    pub target_span: Span,
    pub type_params: Vec<String>,
    pub bounds: Vec<Bound>,
    /// The declaring file's module path (orphan rule).
    pub module: Option<String>,
    pub methods: Vec<Function>,
}

/// A bound on a type parameter: `T: Add + Show` becomes
/// `Bound { param: "T", traits: ["Add", "Show"] }`.
#[derive(Debug)]
pub struct Bound {
    pub param: String,
    pub traits: Vec<String>,
    pub span: Span,
}

/// One variant of an enum, with its payload field types (possibly empty).
#[derive(Debug)]
pub struct EnumVariant {
    pub name: String,
    pub name_span: Span,
    pub fields: Vec<Type>,
}

/// A no-body function declaration whose implementation the compiler does not
/// hold. Two kinds share this shape. An `extern fn` is a platform
/// function: the Runtime supplies the implementation and the call lowers to a
/// Platform node. An `intrinsic fn` is a pure primitive: the backend
/// inlines it to a native instruction and the call lowers to an Intrinsic node.
/// `module` is the declaring file's module path, used with `name` to form the
/// canonical platform name (externs only).
#[derive(Debug)]
pub struct Extern {
    pub name: String,
    pub name_span: Span,
    pub module: Option<String>,
    pub params: Vec<Param>,
    pub ret: Type,
    pub throws: Option<Type>,
    pub effects: EffectRow,
    /// `true` for `intrinsic fn`, `false` for `extern fn`.
    pub is_intrinsic: bool,
    /// `Some(effect)` when this extern is a backing operation of an `effect`
    /// block, e.g. `write_stdout` inside `effect Io { ... }`. A
    /// backing operation is private to its effect: only sibling operations may
    /// call it, by bare name.
    pub effect_name: Option<String>,
}

#[derive(Debug)]
pub struct Import {
    pub path: Vec<String>,
    pub span: Span,
}

#[derive(Debug)]
pub struct Function {
    pub name: String,
    pub name_span: Span,
    pub is_public: bool,
    /// The qualifier this function is addressed by. For a function
    /// of an imported module this is the written import path (`["std", "list"]`
    /// for `import std.list`), stamped by `imports.rs` on every function of the
    /// module (public or not) so bare names never cross module boundaries. For
    /// an effect operation it is `[EffectName]`, stamped at parse time, so the
    /// operation is addressed as `Io.print` wherever the effect is declared.
    /// Empty only for the compilation root's own functions. The full qualified
    /// path is `module_segments + [name]`; public functions are callable by any
    /// suffix of that path ending at `name`.
    pub module_segments: Vec<String>,
    /// The declaring file's `module` header, if any: the visibility
    /// domain for bare `extern`/`intrinsic` references, matching
    /// `Extern::module`. `None` for a headerless compilation root.
    pub declared_module: Option<String>,
    /// `Some(effect)` when this function is an operation of an `effect` block
    /// body, e.g. `print` inside `effect Io { ... }`. Operations carry
    /// the effect implicitly in `effects` and are callable only as
    /// `Io.print(...)` from inside a `uses { Io }` scope; sibling operations of
    /// the same effect may also call each other by bare name.
    pub effect_name: Option<String>,
    /// Declared type parameters, e.g. `["T", "U"]`. Empty for a
    /// non-generic function. Their names appear as `Type::Var` in this
    /// function's signature and body.
    pub type_params: Vec<String>,
    /// Trait bounds on the type parameters, e.g. `<T: Add>`. Empty
    /// when no parameter is bounded. Consulted only when resolving bare trait
    /// method calls in the body; the monomorphization machinery needs only the
    /// parameter names in `type_params`.
    pub bounds: Vec<Bound>,
    pub params: Vec<Param>,
    pub ret: Type,
    pub throws: Option<Type>,
    pub effects: EffectRow,
    pub body: Block,
    /// `true` when the function is declared `@test`. A test
    /// function is excluded from normal build artifacts, may not be
    /// referenced by any source code, and its body is an implicit-try
    /// scope: bare throwing calls propagate to the test harness.
    pub is_test: bool,
}

#[derive(Debug)]
pub struct Param {
    pub name: String,
    pub name_span: Span,
    pub ty: Type,
}

#[derive(Debug)]
pub struct Block {
    pub items: Vec<BlockItem>,
    pub span: Span,
}

#[derive(Debug)]
pub enum BlockItem {
    Let {
        name: String,
        name_span: Span,
        ty: Option<Type>,
        value: Expr,
    },
    Expr(Expr),
}

#[derive(Debug)]
pub enum Expr {
    Int(i32, Span),
    /// A `Float` literal, by its source text.
    Float(String, Span),
    Bool(bool, Span),
    String(String, Span),
    Char(char, Span),
    Array(Vec<Expr>, Span),
    Unit(Span),
    Var(String, Span),
    Call {
        callee: Box<Expr>,
        args: Vec<Expr>,
        span: Span,
    },
    Fn {
        params: Vec<Param>,
        ret: Type,
        throws: Option<Type>,
        effects: EffectRow,
        body: Block,
        span: Span,
    },
    Binary {
        op: BinaryOp,
        left: Box<Expr>,
        right: Box<Expr>,
        span: Span,
    },
    Block(Block),
    /// `if cond { then } else { els }`.
    If {
        cond: Box<Expr>,
        then: Block,
        els: Block,
        span: Span,
    },
    /// `throw e`.
    Throw {
        value: Box<Expr>,
        span: Span,
    },
    /// `panic(msg)`.
    Panic {
        message: Box<Expr>,
        span: Span,
    },
    /// `expr?`: error / `None` propagation.
    Question {
        value: Box<Expr>,
        span: Span,
    },
    /// `match scrutinee { arms }`.
    Match {
        scrutinee: Box<Expr>,
        arms: Vec<MatchArm>,
        span: Span,
    },
    /// `try { body } catch { arms }`.
    Try {
        body: Block,
        arms: Vec<MatchArm>,
        span: Span,
    },
    /// A dotted (`.`) path used as a value or call target:
    /// `int.to_string`, `std.int.to_string`, a receiver call `recv.method`, or a
    /// qualified trait method `Show.to_string`. Has at least two segments (a
    /// single identifier is `Var`). Its meaning - receiver call, qualified trait
    /// method, or a (possibly qualified) function - is resolved in the type
    /// checker / lowering. Enum variants and built-in conversions are `::` type
    /// paths (`TypePath`), never `.` paths.
    Path {
        segments: Vec<String>,
        span: Span,
    },
    /// A `::` type path: a name resolved through a type
    /// - an enum variant (`Color::Red`, `Either::Left`) or a built-in conversion
    /// (`Char::from_code`, `String::from_char`). The head is a type name. Has at
    /// least two segments. When followed by `(...)` it is the callee of a `Call`;
    /// on its own it is a value (a no-payload variant). Kept distinct from `Path`
    /// so `.` never resolves to a variant (`Color.Red` is an error).
    TypePath {
        segments: Vec<String>,
        span: Span,
    },
    /// `Name { field: value, ... }`.
    RecordLiteral {
        name: String,
        fields: Vec<FieldInit>,
        span: Span,
    },
    /// `target.name` on a record value.
    Field {
        target: Box<Expr>,
        name: String,
        span: Span,
    },
}

/// One field of a record literal.
#[derive(Debug)]
pub struct FieldInit {
    pub name: String,
    pub name_span: Span,
    pub value: Expr,
}

#[derive(Debug)]
pub struct MatchArm {
    pub pattern: Pattern,
    pub guard: Option<Expr>,
    pub body: Expr,
    pub span: Span,
}

#[derive(Debug)]
pub enum Pattern {
    /// A variant pattern, optionally qualified by enum name via `::`: `Some(v)`,
    /// `None`, `Color::Red`. The `::` qualifier is optional; bare `Red` also
    /// matches. `Color.Red` (dotted) is not a variant pattern.
    Variant {
        enum_name: Option<String>,
        variant: String,
        fields: Vec<FieldBinding>,
        span: Span,
    },
    /// `_`: ignore the scrutinee.
    Wildcard(Span),
    /// Bind the whole scrutinee to a name (catch-all).
    Binding { name: String, span: Span },
}

#[derive(Debug)]
pub enum FieldBinding {
    /// Bind the payload field to a name.
    Name(String),
    /// `_`: ignore the payload field.
    Ignore,
}

/// The name `name` of a module, qualified by the module's path.
pub open spec fn canonical_name(module: Option<String>, name: Seq<char>) -> Seq<char> {
    match module {
        Some(m) => if m@.len() > 0 {
            m@ + "."@ + name
        } else {
            name
        },
        None => name,
    }
}

impl Extern {
    /// The canonical platform name, e.g. `io.write_stdout`.
    pub fn canonical(&self) -> (r: String)
        ensures
            r@ == canonical_name(self.module, self.name@),
    {
        match &self.module {
            Some(module) => {
                if no_text(module.as_str()) {
                    return self.name.clone();
                }
                let mut out = owned(module.as_str());
                out.push_str(".");
                out.push_str(self.name.as_str());
                out
            },
            None => self.name.clone(),
        }
    }
}

impl Import {
    /// The name of the imported item: the last segment of the path.
    pub fn item_name(&self) -> (r: &str)
        ensures
            r@ == if self.path@.len() > 0 {
                self.path@.last()@
            } else {
                Seq::empty()
            },
    {
        if self.path.len() > 0 {
            self.path[self.path.len() - 1].as_str()
        } else {
            proof {
                reveal_strlit("");
            }
            ""
        }
    }
}

/// Where an expression stands.
pub open spec fn span_of(e: Expr) -> Span {
    match e {
        Expr::Int(_, span) => span,
        Expr::Float(_, span) => span,
        Expr::Bool(_, span) => span,
        Expr::String(_, span) => span,
        Expr::Char(_, span) => span,
        Expr::Array(_, span) => span,
        Expr::Unit(span) => span,
        Expr::Var(_, span) => span,
        Expr::Call { span, .. } => span,
        Expr::Fn { span, .. } => span,
        Expr::Binary { span, .. } => span,
        Expr::Block(block) => block.span,
        Expr::If { span, .. } => span,
        Expr::Throw { span, .. } => span,
        Expr::Panic { span, .. } => span,
        Expr::Question { span, .. } => span,
        Expr::Match { span, .. } => span,
        Expr::Try { span, .. } => span,
        Expr::Path { span, .. } => span,
        Expr::TypePath { span, .. } => span,
        Expr::RecordLiteral { span, .. } => span,
        Expr::Field { span, .. } => span,
    }
}

impl Expr {
    /// Where the expression stands.
    pub fn span(&self) -> (r: Span)
        ensures
            r == span_of(*self),
    {
        match self {
            Expr::Int(_, span) => span.copy(),
            Expr::Float(_, span) => span.copy(),
            Expr::Bool(_, span) => span.copy(),
            Expr::String(_, span) => span.copy(),
            Expr::Char(_, span) => span.copy(),
            Expr::Array(_, span) => span.copy(),
            Expr::Unit(span) => span.copy(),
            Expr::Var(_, span) => span.copy(),
            Expr::Call { span, .. } => span.copy(),
            Expr::Fn { span, .. } => span.copy(),
            Expr::Binary { span, .. } => span.copy(),
            Expr::Block(block) => block.span.copy(),
            Expr::If { span, .. } => span.copy(),
            Expr::Throw { span, .. } => span.copy(),
            Expr::Panic { span, .. } => span.copy(),
            Expr::Question { span, .. } => span.copy(),
            Expr::Match { span, .. } => span.copy(),
            Expr::Try { span, .. } => span.copy(),
            Expr::Path { span, .. } => span.copy(),
            Expr::TypePath { span, .. } => span.copy(),
            Expr::RecordLiteral { span, .. } => span.copy(),
            Expr::Field { span, .. } => span.copy(),
        }
    }
}

} // verus!
