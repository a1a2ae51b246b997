//! Lowering of expressions.

use vstd::prelude::*;

use super::calls::{
    access_field, after, applied, binary, call_foreign, call_generic, call_trait, enum_has_variant,
    error_of_body, field_of, find_visible, foreign_call, generic_call, has_variant, lower_binary,
    lower_pattern, lowered_pattern, named_value, param_tys, path_value, pick_arms, picked,
    picked_arms, test_site, trait_call, type_args, types_of_params, unit, value_of_name,
    value_of_path, value_of_variant, variant_or_unit, visible_extern, wrap_test_site, body_error,
    args_of_params, Context, Cx, Lowered, Progress, St, Val,
};
use super::float::{shorten, shortened};
use super::free::{captures, lambda_captures};
use super::tables::{
    field_named, find_field_named, find_option_enum, find_record_named, find_trait_method,
    is_variant_name, method_owners, option_enum, owners_of, record_named, trait_method,
    variant_name,
};
use crate::ast::{
    Block, BlockItem, Expr, FieldInit, MatchArm, Param, RecordDecl,
};
use crate::ir::{
    arm_nodes, capture_binds, nodes, opt_text, param_binds, ArmNode, Bind, IrArm, IrExpr, IrParam,
    Node, QuestionMode,
};
use crate::resolve::{resolution, resolve_in, resolve_name, Resolved};
use crate::strings::{decimal, owned, same, texts};
use crate::subst::{infer, infer_subst, lookup, Bindings};
use crate::types::{copy_opt, opt_ty, tys, FnTy, FunctionType, Ty, Type};

verus! {

/// What a call calls.
pub enum Target {
    /// The present variant of the language's `Option`, which is this enum.
    Present(Seq<char>, Seq<char>),
    /// The bodyless function at this index.
    Foreign(usize),
    /// The generic function at this index.
    Generic(usize),
    /// A method of one of some traits.
    Trait(Seq<Seq<char>>, Seq<char>),
    /// A variant of an enum.
    Variant(Seq<char>, Seq<char>),
    /// A function value.
    Value,
}

/// What a call calls.
pub enum Callee {
    Present(String, String),
    Foreign(usize),
    Generic(usize),
    Trait(Vec<String>, String),
    Variant(String, String),
    Value,
}

impl Callee {
    pub open spec fn view(&self) -> Target {
        match self {
            Callee::Present(a, b) => Target::Present(a@, b@),
            Callee::Foreign(i) => Target::Foreign(*i),
            Callee::Generic(i) => Target::Generic(*i),
            Callee::Trait(traits, method) => Target::Trait(texts(traits@), method@),
            Callee::Variant(a, b) => Target::Variant(a@, b@),
            Callee::Value => Target::Value,
        }
    }
}

/// Whether a bare name refers to no function of the module.
pub open spec fn is_unbound(cx: Cx, name: Seq<char>) -> bool {
    let r = resolution(cx.program.functions@, seq![name], cx.module);
    r is Nothing || r is BareImported
}

/// The generic function that a name refers to.
pub open spec fn generic_named(cx: Cx, segments: Seq<Seq<char>>) -> Option<usize> {
    match resolution(cx.program.functions@, segments, cx.module) {
        Resolved::One(i) => if cx.program.functions@[i as int].type_params@.len() > 0 {
            Some(i)
        } else {
            None
        },
        _ => None,
    }
}

/// The language's `Option`, if `name` is its present variant.
pub open spec fn present_variant(cx: Cx, name: Seq<char>) -> Option<Seq<char>> {
    match option_enum(cx.program.enums@) {
        Some(i) => {
            let d = cx.program.enums@[i as int];
            if name == variant_name(d, 1) {
                Some(d.name@)
            } else {
                None
            }
        },
        None => None,
    }
}

/// What a call by a bare name calls. A function of the module shadows a trait
/// method, and a trait method wins over a same-named import.
pub open spec fn name_target(cx: Cx, scope: Seq<Bind>, name: Seq<char>) -> Target {
    let local = lookup(scope, name) is Some;
    let visible = visible_extern(cx, name);
    if present_variant(cx, name) is Some && !local && visible is None && is_unbound(cx, name) {
        Target::Present(present_variant(cx, name)->Some_0, name)
    } else if let Some(i) = visible {
        Target::Foreign(i)
    } else if !local && generic_named(cx, seq![name]) is Some {
        Target::Generic(generic_named(cx, seq![name])->Some_0)
    } else if !local && is_unbound(cx, name) && method_owners(
        cx.program.traits@,
        name,
    ).len() > 0 {
        Target::Trait(method_owners(cx.program.traits@, name), name)
    } else {
        Target::Value
    }
}

/// What a call of `callee` calls.
pub open spec fn call_target(cx: Cx, scope: Seq<Bind>, callee: Expr) -> Target {
    match callee {
        Expr::Var(name, _) => name_target(cx, scope, name@),
        Expr::TypePath { segments, .. } => if segments@.len() == 2 && has_variant(
            cx,
            segments@[0]@,
            segments@[1]@,
        ) {
            Target::Variant(segments@[0]@, segments@[1]@)
        } else {
            Target::Value
        },
        Expr::Path { segments, .. } => if segments@.len() == 2 && trait_method(
            cx.program.traits@,
            segments@[0]@,
            segments@[1]@,
        ) is Some {
            Target::Trait(seq![segments@[0]@], segments@[1]@)
        } else {
            match generic_named(cx, texts(segments@)) {
                Some(i) => Target::Generic(i),
                None => Target::Value,
            }
        },
        _ => Target::Value,
    }
}

/// The receiver and the method of a call `recv.method(args)` on a local value,
/// which is `method(recv, args)`.
pub open spec fn receiver_of(scope: Seq<Bind>, callee: Expr) -> Option<(Seq<char>, Seq<char>)> {
    match callee {
        Expr::Path { segments, .. } => if segments@.len() == 2 && lookup(
            scope,
            segments@[0]@,
        ) is Some {
            Some((segments@[0]@, segments@[1]@))
        } else {
            None
        },
        _ => None,
    }
}

/// Whether a name refers to no function of the module.
fn unbound(cx: &Context<'_>, name: &str) -> (r: bool)
    ensures
        r == is_unbound(cx@, name@),
{
    matches!(
        resolve_name(&cx.program.functions, name, &cx.module),
        Resolved::Nothing | Resolved::BareImported(_)
    )
}

fn generic_of(cx: &Context<'_>, segments: &Vec<String>) -> (r: Option<usize>)
    ensures
        r == generic_named(cx@, texts(segments@)),
        r matches Some(i) ==> i < cx.program.functions@.len(),
{
    match resolve_in(&cx.program.functions, segments, &cx.module) {
        Resolved::One(i) => {
            if cx.program.functions[i].type_params.len() > 0 {
                Some(i)
            } else {
                None
            }
        },
        _ => None,
    }
}

fn present_of(cx: &Context<'_>, name: &str) -> (r: Option<String>)
    ensures
        opt_text(r) == present_variant(cx@, name@),
{
    match find_option_enum(&cx.program.enums) {
        Some(i) => {
            let d = &cx.program.enums[i];
            if is_variant_name(d, 1, name) {
                Some(d.name.clone())
            } else {
                None
            }
        },
        None => None,
    }
}

/// Whether a target's index is that of a declaration.
pub open spec fn target_in(cx: Cx, t: Target) -> bool {
    match t {
        Target::Foreign(i) => i < cx.program.externs@.len(),
        Target::Generic(i) => i < cx.program.functions@.len(),
        _ => true,
    }
}

fn target_of_name(cx: &Context<'_>, scope: &Bindings, name: &str) -> (r: Callee)
    ensures
        r@ == name_target(cx@, scope@, name@),
        target_in(cx@, r@),
{
    let local = scope.get(name).is_some();
    let visible = find_visible(cx, name);
    let present = present_of(cx, name);
    let free = unbound(cx, name);
    if let Some(enum_name) = present {
        if !local && visible.is_none() && free {
            return Callee::Present(enum_name, owned(name));
        }
    }
    if let Some(i) = visible {
        return Callee::Foreign(i);
    }
    let mut segments: Vec<String> = Vec::new();
    segments.push(owned(name));
    assert(texts(segments@) =~= seq![name@]);
    if !local {
        if let Some(i) = generic_of(cx, &segments) {
            return Callee::Generic(i);
        }
        if free {
            let owners = owners_of(&cx.program.traits, name);
            assert(texts(owners@).len() == owners@.len());
            if owners.len() > 0 {
                return Callee::Trait(owners, owned(name));
            }
        }
    }
    Callee::Value
}

fn target_of_call(cx: &Context<'_>, scope: &Bindings, callee: &Expr) -> (r: Callee)
    ensures
        r@ == call_target(cx@, scope@, *callee),
        target_in(cx@, r@),
{
    match callee {
        Expr::Var(name, _) => target_of_name(cx, scope, name.as_str()),
        Expr::TypePath { segments, .. } => {
            if segments.len() == 2 && enum_has_variant(
                cx,
                segments[0].as_str(),
                segments[1].as_str(),
            ) {
                Callee::Variant(segments[0].clone(), segments[1].clone())
            } else {
                Callee::Value
            }
        },
        Expr::Path { segments, .. } => {
            if segments.len() == 2 && find_trait_method(
                &cx.program.traits,
                segments[0].as_str(),
                segments[1].as_str(),
            ).is_some() {
                let mut traits: Vec<String> = Vec::new();
                traits.push(segments[0].clone());
                assert(texts(traits@) =~= seq![segments@[0]@]);
                return Callee::Trait(traits, segments[1].clone());
            }
            match generic_of(cx, segments) {
                Some(i) => Callee::Generic(i),
                None => Callee::Value,
            }
        },
        _ => Callee::Value,
    }
}

/// A `::` path used as a value: a variant without a payload.
pub open spec fn type_path_value(cx: Cx, segments: Seq<String>) -> Val {
    if segments.len() == 2 {
        variant_or_unit(cx, segments[0]@, segments[1]@, Seq::empty(), Seq::empty())
    } else {
        unit()
    }
}

fn value_of_type_path(cx: &Context<'_>, segments: &Vec<String>) -> (r: Lowered)
    ensures
        r@ == type_path_value(cx@, segments@),
{
    if segments.len() == 2 {
        let args: Vec<IrExpr> = Vec::new();
        let arg_tys: Vec<Type> = Vec::new();
        assert(nodes(args@) =~= Seq::<Node>::empty());
        assert(tys(arg_tys@) =~= Seq::<Ty>::empty());
        value_of_variant(cx, segments[0].as_str(), segments[1].as_str(), args, &arg_tys)
    } else {
        Lowered { ir: IrExpr::Unit, ty: Type::Unit }
    }
}

/// What parameters bind.
pub open spec fn param_scope(s: Seq<Param>) -> Seq<Bind> {
    s.map_values(|p: Param| Bind { name: p.name@, ty: p.ty@ })
}

fn scope_of_params(scope: &Bindings, s: &Vec<Param>) -> (r: Bindings)
    ensures
        r@ == scope@ + param_scope(s@),
{
    let ghost all = param_scope(s@);
    let mut r = scope.copy();
    let mut i: usize = 0;
    assert(r@ =~= scope@ + all.take(0));
    while i < s.len()
        invariant
            i <= s.len(),
            all == param_scope(s@),
            r@ == scope@ + all.take(i as int),
        decreases s.len() - i,
    {
        r.put(s[i].name.as_str(), s[i].ty.copy());
        assert(r@ =~= scope@ + all.take(i + 1));
        i += 1;
    }
    assert(all.take(all.len() as int) =~= all);
    r
}

fn ir_params(s: &Vec<Param>) -> (r: Vec<IrParam>)
    ensures
        param_binds(r@) == param_scope(s@),
{
    let mut out: Vec<IrParam> = Vec::new();
    let mut i: usize = 0;
    while i < s.len()
        invariant
            i <= s.len(),
            out@.len() == i,
            forall|k: int| 0 <= k < i ==> (#[trigger] out@[k])@ == param_scope(s@)[k],
        decreases s.len() - i,
    {
        out.push(IrParam { name: s[i].name.clone(), ty: s[i].ty.copy() });
        i += 1;
    }
    assert(param_binds(out@) =~= param_scope(s@));
    out
}

/// The element type of an array: that of its first element, or else the expected
/// one.
pub open spec fn element_ty(found: Seq<Ty>, expected: Option<Ty>) -> Ty {
    if found.len() > 0 {
        found[0]
    } else {
        match expected {
            Some(t) => t,
            None => Ty::Unit,
        }
    }
}

/// The element type that an expected array type gives.
pub open spec fn expected_element(expected: Option<Ty>) -> Option<Ty> {
    match expected {
        Some(Ty::Array(element)) => Some(*element),
        _ => None,
    }
}

fn element_of(expected: &Option<Type>) -> (r: Option<Type>)
    ensures
        opt_ty(r) == expected_element(opt_ty(*expected)),
{
    match expected {
        Some(Type::Array(element)) => Some(element.copy()),
        _ => None,
    }
}

/// Whether the fields of a literal are written in declaration order.
pub open spec fn in_order(fields: Seq<FieldInit>, d: RecordDecl) -> bool {
    fields.len() == d.fields@.len() && forall|i: int|
        0 <= i < fields.len() ==> (#[trigger] fields[i]).name@ == d.fields@[i].name@
}

fn written_in_order(fields: &Vec<FieldInit>, d: &RecordDecl) -> (r: bool)
    ensures
        r == in_order(fields@, *d),
{
    if fields.len() != d.fields.len() {
        return false;
    }
    let mut i: usize = 0;
    while i < fields.len()
        invariant
            i <= fields.len(),
            fields@.len() == d.fields@.len(),
            forall|k: int|
                0 <= k < i ==> (#[trigger] fields@[k]).name@ == d.fields@[k].name@,
        decreases fields.len() - i,
    {
        if !same(fields[i].name.as_str(), d.fields[i].name.as_str()) {
            assert(fields@[i as int].name@ != d.fields@[i as int].name@);
            return false;
        }
        i += 1;
    }
    true
}

/// The declared type of field `i` of a literal.
pub open spec fn declared_ty(fields: Seq<FieldInit>, d: RecordDecl, i: int) -> Ty {
    if in_order(fields, d) {
        d.fields@[i].ty@
    } else {
        match field_named(d.fields@, fields[i].name@) {
            Some(k) => d.fields@[k as int].ty@,
            None => Ty::Unit,
        }
    }
}

fn type_of_field(fields: &Vec<FieldInit>, d: &RecordDecl, ordered: bool, i: usize) -> (r: Type)
    requires
        i < fields@.len(),
        ordered == in_order(fields@, *d),
    ensures
        r@ == declared_ty(fields@, *d, i as int),
{
    if ordered {
        d.fields[i].ty.copy()
    } else {
        match find_field_named(&d.fields, fields[i].name.as_str()) {
            Some(k) => d.fields[k].ty.copy(),
            None => Type::Unit,
        }
    }
}

/// The fields of a literal so far: their values, what the type parameters stand
/// for, and the temporaries of those that are not in declaration order.
#[verifier::ext_equal]
pub struct Fields {
    pub vals: Seq<Val>,
    pub subst: Seq<Bind>,
    pub temps: Seq<Seq<char>>,
}

/// The temporary of the last written field called `name`.
pub open spec fn temp_of(fields: Seq<FieldInit>, f: Fields, name: Seq<char>, n: nat) -> Node
    decreases n,
{
    if n == 0 {
        Node::Unit
    } else if fields[n - 1].name@ == name {
        Node::Var { name: f.temps[n - 1], ty: f.vals[n - 1].ty }
    } else {
        temp_of(fields, f, name, (n - 1) as nat)
    }
}

/// The temporaries in declaration order.
pub open spec fn stored(fields: Seq<FieldInit>, d: RecordDecl, f: Fields) -> Seq<Node> {
    Seq::new(
        d.fields@.len(),
        |i: int| temp_of(fields, f, d.fields@[i].name@, fields.len()),
    )
}

/// The temporaries from `i` on, bound in written order before `next`.
pub open spec fn bound_fields(f: Fields, i: int, next: Node) -> Node
    decreases f.vals.len() - i,
{
    if i < 0 || i >= f.vals.len() {
        next
    } else {
        Node::Let {
            name: f.temps[i],
            value_ty: f.vals[i].ty,
            value: Box::new(f.vals[i].node),
            next: Box::new(bound_fields(f, i + 1, next)),
        }
    }
}

/// The nodes of values.
pub open spec fn val_nodes(s: Seq<Val>) -> Seq<Node> {
    s.map_values(|v: Val| v.node)
}

/// A record from its fields. The stored order is declaration order; the values
/// are evaluated in written order.
pub open spec fn record_value(name: Seq<char>, fields: Seq<FieldInit>, d: RecordDecl, f: Fields) -> Val {
    let ty = Ty::Enum(name, type_args(texts(d.type_params@), f.subst));
    Val {
        node: if in_order(fields, d) {
            Node::RecordValue { ty, fields: val_nodes(f.vals) }
        } else {
            bound_fields(f, 0, Node::RecordValue { ty, fields: stored(fields, d, f) })
        },
        ty,
    }
}

/// Lowers an expression. `expected` is the type that the context expects, from
/// which a method that dispatches on its return type is found; `test` is whether
/// a throwing site here fails a test.
pub open spec fn lower_expr(cx: Cx, st: St, scope: Seq<Bind>, e: Expr, expected: Option<Ty>, test: bool) -> (
    St,
    Val,
)
    decreases e, 3nat, 0int,
{
    match e {
        Expr::Int(value, _) => (st, Val { node: Node::Int(value), ty: Ty::Int }),
        Expr::Float(value, _) => (st, Val { node: Node::Float(shortened(value@)), ty: Ty::Float }),
        Expr::Bool(value, _) => (st, Val { node: Node::Bool(value), ty: Ty::Bool }),
        Expr::String(value, _) => (st, Val { node: Node::String(value@), ty: Ty::String }),
        Expr::Char(value, _) => (st, Val { node: Node::Char(value as u32), ty: Ty::Char }),
        Expr::Unit(_) => (st, unit()),
        Expr::Var(name, _) => (st, named_value(cx, scope, name@)),
        Expr::TypePath { segments, .. } => (st, type_path_value(cx, segments@)),
        Expr::Path { segments, .. } => (st, path_value(cx, scope, texts(segments@))),
        Expr::Array(elements, _) => lower_array(cx, st, scope, elements@, None, test),
        Expr::RecordLiteral { name, fields, .. } => match record_named(
            cx.program.records@,
            name@,
        ) {
            Some(i) => {
                let d = cx.program.records@[i as int];
                let (done, f) = lower_fields(cx, st, scope, fields@, fields@.len(), d, test);
                (done, record_value(name@, fields@, d, f))
            },
            None => (st, unit()),
        },
        Expr::Field { target, name, .. } => {
            let (done, v) = lower_expr(cx, st, scope, *target, None, test);
            (done, field_of(cx, v, name@))
        },
        Expr::Call { .. } => {
            let (done, v) = lower_call(cx, st, scope, e, expected, test);
            if test {
                test_site(cx, done, v)
            } else {
                (done, v)
            }
        },
        Expr::Fn { params, ret, throws, effects, body, .. } => {
            // A literal's body follows the ordinary rules even in a test.
            let (done, v) = lower_items(
                cx,
                st,
                scope + param_scope(params@),
                body.items@,
                0,
                Some(ret@),
                false,
            );
            let binds = param_scope(params@);
            (
                done,
                Val {
                    node: Node::Fn {
                        params: binds,
                        ret: ret@,
                        throws: opt_ty(throws),
                        effects: effects@,
                        captures: captures(params@, body, scope),
                        body: Box::new(v.node),
                    },
                    ty: Ty::Function(
                        FnTy {
                            params: param_tys(params@),
                            ret: Box::new(ret@),
                            throws: match opt_ty(throws) {
                                Some(t) => Some(Box::new(t)),
                                None => None,
                            },
                            effects: effects@,
                        },
                    ),
                },
            )
        },
        Expr::Binary { op, left, right, .. } => {
            let (s1, a) = lower_expr(cx, st, scope, *left, None, test);
            let (s2, b) = lower_expr(cx, s1, scope, *right, None, test);
            let (done, v) = binary(cx, s2, op, a, b);
            if test {
                test_site(cx, done, v)
            } else {
                (done, v)
            }
        },
        Expr::Block(block) => lower_items(cx, st, scope, block.items@, 0, expected, test),
        Expr::If { cond, then, els, .. } => {
            let (s1, c) = lower_expr(cx, st, scope, *cond, None, test);
            let (s2, a) = lower_items(cx, s1, scope, then.items@, 0, expected, test);
            let (s3, b) = lower_items(cx, s2, scope, els.items@, 0, expected, test);
            let ty = picked(a.ty, b.ty);
            (
                s3,
                Val {
                    node: Node::If {
                        cond: Box::new(c.node),
                        then: Box::new(a.node),
                        els: Box::new(b.node),
                        ty,
                    },
                    ty,
                },
            )
        },
        Expr::Throw { value, .. } => {
            let (done, v) = lower_expr(cx, st, scope, *value, None, test);
            let thrown = Val { node: Node::Throw { value: Box::new(v.node) }, ty: Ty::Never };
            if test {
                test_site(cx, done, thrown)
            } else {
                (done, thrown)
            }
        },
        Expr::Panic { message, .. } => {
            let (done, v) = lower_expr(cx, st, scope, *message, None, test);
            (done, Val { node: Node::Panic { message: Box::new(v.node) }, ty: Ty::Never })
        },
        Expr::Question { value, .. } => {
            let (done, v) = lower_expr(cx, st, scope, *value, None, test);
            (
                done,
                Val {
                    node: Node::Question {
                        value: Box::new(v.node),
                        mode: QuestionMode::Throws,
                        ty: v.ty,
                    },
                    ty: v.ty,
                },
            )
        },
        Expr::Match { scrutinee, arms, .. } => {
            let (s1, v) = lower_expr(cx, st, scope, *scrutinee, None, test);
            let (s2, lowered) = lower_arms(cx, s1, scope, arms@, v.ty, expected, test);
            let ty = picked_arms(Ty::Never, lowered);
            (
                s2,
                Val {
                    node: Node::Match { scrutinee: Box::new(v.node), arms: lowered, ty },
                    ty,
                },
            )
        },
        Expr::Try { body, arms, .. } => {
            // Inside the body a thrown error routes to `catch`, not to the test.
            let (s1, v) = lower_items(cx, st, scope, body.items@, 0, None, false);
            let error = match body_error(v.node) {
                Some(t) => t,
                None => Ty::Never,
            };
            let (s2, lowered) = lower_arms(cx, s1, scope, arms@, error, None, test);
            let ty = picked_arms(v.ty, lowered);
            (
                s2,
                Val {
                    node: Node::Try {
                        body: Box::new(v.node),
                        arms: lowered,
                        ty,
                        err_name: None,
                    },
                    ty,
                },
            )
        },
    }
}

/// Lowers block items from `i` on. The last expression is the block's value; any
/// other is sequenced through a temporary.
pub open spec fn lower_items(cx: Cx, st: St, scope: Seq<Bind>, items: Seq<BlockItem>, i: int, expected: Option<Ty>, test: bool) -> (
    St,
    Val,
)
    decreases items, 2nat, items.len() - i,
{
    if i < 0 || i >= items.len() {
        (st, unit())
    } else {
        match items[i] {
            BlockItem::Expr(e) => if i + 1 == items.len() {
                lower_expr(cx, st, scope, e, expected, test)
            } else {
                let (s1, v) = lower_expr(cx, st, scope, e, None, test);
                let (s2, n) = lower_items(cx, s1, scope, items, i + 1, expected, test);
                (
                    St { statements: after(s2.statements), ..s2 },
                    Val {
                        node: Node::Let {
                            name: "$stmt"@ + decimal(s2.statements as nat),
                            value_ty: v.ty,
                            value: Box::new(v.node),
                            next: Box::new(n.node),
                        },
                        ty: n.ty,
                    },
                )
            },
            BlockItem::Let { name, ty, value, .. } => {
                let annotated = match opt_ty(ty) {
                    Some(t) => Some(applied(cx, t)),
                    None => None,
                };
                let (s1, v) = lower_bound(cx, st, scope, value, annotated, test);
                let value_ty = match annotated {
                    Some(t) => t,
                    None => v.ty,
                };
                let (s2, n) = lower_items(
                    cx,
                    s1,
                    scope.push(Bind { name: name@, ty: value_ty }),
                    items,
                    i + 1,
                    expected,
                    test,
                );
                (
                    s2,
                    Val {
                        node: Node::Let {
                            name: name@,
                            value_ty,
                            value: Box::new(v.node),
                            next: Box::new(n.node),
                        },
                        ty: n.ty,
                    },
                )
            },
        }
    }
}

/// Lowers the value of a `let` with an optional annotation, or of a field: an
/// array takes its element type from it.
pub open spec fn lower_bound(cx: Cx, st: St, scope: Seq<Bind>, value: Expr, annotated: Option<Ty>, test: bool) -> (
    St,
    Val,
)
    decreases value, 4nat, 0int,
{
    match value {
        Expr::Array(elements, _) => lower_array(
            cx,
            st,
            scope,
            elements@,
            expected_element(annotated),
            test,
        ),
        _ => lower_expr(cx, st, scope, value, annotated, test),
    }
}

/// Lowers an array.
pub open spec fn lower_array(cx: Cx, st: St, scope: Seq<Bind>, elements: Seq<Expr>, expected: Option<Ty>, test: bool) -> (
    St,
    Val,
)
    decreases elements, 1nat, 0int,
{
    let (done, found, found_tys) = lower_list(cx, st, scope, elements, test);
    let elem_ty = element_ty(found_tys, expected);
    (
        done,
        Val {
            node: Node::Array { elem_ty, elems: found },
            ty: Ty::Array(Box::new(elem_ty)),
        },
    )
}

/// Lowers expressions, left to right.
pub open spec fn lower_list(cx: Cx, st: St, scope: Seq<Bind>, s: Seq<Expr>, test: bool) -> (
    St,
    Seq<Node>,
    Seq<Ty>,
)
    decreases s, 0nat, 0int,
{
    if s.len() == 0 {
        (st, Seq::empty(), Seq::empty())
    } else {
        let (s1, found, found_tys) = lower_list(cx, st, scope, s.drop_last(), test);
        let (s2, v) = lower_expr(cx, s1, scope, s.last(), None, test);
        (s2, found.push(v.node), found_tys.push(v.ty))
    }
}

/// Lowers arguments, each expected to have the type of its parameter. The first
/// has the parameter at `from`.
pub open spec fn lower_args(cx: Cx, st: St, scope: Seq<Bind>, s: Seq<Expr>, params: Seq<Ty>, from: nat, test: bool) -> (
    St,
    Seq<Node>,
)
    decreases s, 0nat, 0int,
{
    if s.len() == 0 {
        (st, Seq::empty())
    } else {
        let (s1, found) = lower_args(cx, st, scope, s.drop_last(), params, from, test);
        let at = from + s.len() - 1;
        let expected = if at < params.len() {
            Some(params[at])
        } else {
            None
        };
        let (s2, v) = lower_expr(cx, s1, scope, s.last(), expected, test);
        (s2, found.push(v.node))
    }
}

/// Lowers the first `n` fields of a record literal, in written order.
pub open spec fn lower_fields(cx: Cx, st: St, scope: Seq<Bind>, s: Seq<FieldInit>, n: nat, d: RecordDecl, test: bool) -> (
    St,
    Fields,
)
    decreases s, 0nat, n,
{
    if n == 0 || n > s.len() {
        (st, Fields { vals: Seq::empty(), subst: Seq::empty(), temps: Seq::empty() })
    } else {
        let (s1, f) = lower_fields(cx, st, scope, s, (n - 1) as nat, d, test);
        let declared = declared_ty(s, d, n - 1);
        let (s2, v) = lower_bound_field(cx, s1, scope, s[n - 1], declared, test);
        let subst = infer(f.subst, declared, v.ty);
        if in_order(s, d) {
            (s2, Fields { vals: f.vals.push(v), subst, temps: f.temps })
        } else {
            (
                St { statements: after(s2.statements), ..s2 },
                Fields {
                    vals: f.vals.push(v),
                    subst,
                    temps: f.temps.push("$fld"@ + decimal(s2.statements as nat)),
                },
            )
        }
    }
}

/// Lowers the value of a field.
pub open spec fn lower_bound_field(cx: Cx, st: St, scope: Seq<Bind>, f: FieldInit, declared: Ty, test: bool) -> (
    St,
    Val,
)
    decreases f, 0nat, 0int,
{
    match (f.value, declared) {
        (Expr::Array(elements, _), Ty::Array(element)) => lower_array(
            cx,
            st,
            scope,
            elements@,
            Some(*element),
            test,
        ),
        _ => lower_expr(cx, st, scope, f.value, None, test),
    }
}

/// Lowers arms.
pub open spec fn lower_arms(cx: Cx, st: St, scope: Seq<Bind>, s: Seq<MatchArm>, ty: Ty, expected: Option<Ty>, test: bool) -> (
    St,
    Seq<ArmNode>,
)
    decreases s, 0nat, 0int,
{
    if s.len() == 0 {
        (st, Seq::empty())
    } else {
        let (s1, found) = lower_arms(cx, st, scope, s.drop_last(), ty, expected, test);
        let (s2, arm) = lower_arm(cx, s1, scope, s.last(), ty, expected, test);
        (s2, found.push(arm))
    }
}

/// Lowers an arm.
pub open spec fn lower_arm(cx: Cx, st: St, scope: Seq<Bind>, arm: MatchArm, ty: Ty, expected: Option<Ty>, test: bool) -> (
    St,
    ArmNode,
)
    decreases arm, 0nat, 0int,
{
    let (pattern, inner) = lowered_pattern(cx, scope, arm.pattern, ty);
    let (s1, guard) = match arm.guard {
        Some(g) => {
            let (s, v) = lower_expr(cx, st, inner, g, None, test);
            (s, Some(Box::new(v.node)))
        },
        None => (st, None),
    };
    let (s2, v) = lower_expr(cx, s1, inner, arm.body, expected, test);
    (s2, ArmNode { pattern, guard, body: Box::new(v.node) })
}

/// The value of a call of a function value with lowered arguments.
pub open spec fn value_call(callee: Val, args: Seq<Node>) -> Val {
    let ret = match callee.ty {
        Ty::Function(f) => *f.ret,
        _ => Ty::Unit,
    };
    Val { node: Node::Call { callee: Box::new(callee.node), args, ret }, ty: ret }
}

/// The parameter types of a function value.
pub open spec fn value_params(callee: Val) -> Seq<Ty> {
    match callee.ty {
        Ty::Function(f) => f.params,
        _ => Seq::empty(),
    }
}

/// A call of a target other than a value, with lowered arguments.
pub open spec fn target_call(cx: Cx, st: St, target: Target, args: Seq<Node>, arg_tys: Seq<Ty>, expected: Option<Ty>) -> (
    St,
    Val,
) {
    match target {
        Target::Present(enum_name, name) => (
            st,
            variant_or_unit(cx, enum_name, name, args, arg_tys),
        ),
        Target::Foreign(i) => (st, foreign_call(cx.program.externs@[i as int], args, arg_tys)),
        Target::Generic(i) => generic_call(cx, st, i, args, arg_tys),
        Target::Trait(traits, method) => trait_call(
            cx,
            st,
            traits,
            0,
            method,
            args,
            arg_tys,
            expected,
        ),
        Target::Variant(enum_name, variant) => (
            st,
            variant_or_unit(cx, enum_name, variant, args, arg_tys),
        ),
        Target::Value => (st, unit()),
    }
}

/// Lowers a call.
pub open spec fn lower_call(cx: Cx, st: St, scope: Seq<Bind>, e: Expr, expected: Option<Ty>, test: bool) -> (
    St,
    Val,
)
    decreases e, 2nat, 0int,
{
    match e {
        Expr::Call { callee, args, .. } => match receiver_of(scope, *callee) {
            Some((recv, method)) => {
                let head = named_value(cx, scope, recv);
                let target = name_target(cx, scope, method);
                match target {
                    Target::Value => {
                        let f = named_value(cx, scope, method);
                        let (done, found) = lower_args(
                            cx,
                            st,
                            scope,
                            args@,
                            value_params(f),
                            1,
                            test,
                        );
                        (done, value_call(f, seq![head.node] + found))
                    },
                    Target::Present(..) => target_call(
                        cx,
                        st,
                        target,
                        seq![head.node],
                        seq![head.ty],
                        expected,
                    ),
                    _ => {
                        let (done, found, found_tys) = lower_list(cx, st, scope, args@, test);
                        target_call(
                            cx,
                            done,
                            target,
                            seq![head.node] + found,
                            seq![head.ty] + found_tys,
                            expected,
                        )
                    },
                }
            },
            None => {
                let target = call_target(cx, scope, *callee);
                match target {
                    Target::Value => {
                        let (s1, f) = lower_expr(cx, st, scope, *callee, None, test);
                        let (done, found) = lower_args(
                            cx,
                            s1,
                            scope,
                            args@,
                            value_params(f),
                            0,
                            test,
                        );
                        (done, value_call(f, found))
                    },
                    Target::Present(..) => if args@.len() == 0 {
                        (st, unit())
                    } else {
                        let (done, v) = lower_expr(cx, st, scope, args@[0], None, test);
                        target_call(cx, done, target, seq![v.node], seq![v.ty], expected)
                    },
                    _ => {
                        let (done, found, found_tys) = lower_list(cx, st, scope, args@, test);
                        target_call(cx, done, target, found, found_tys, expected)
                    },
                }
            },
        },
        _ => (st, unit()),
    }
}

/// Values with their types.
pub struct Values {
    pub irs: Vec<IrExpr>,
    pub types: Vec<Type>,
}

fn list(cx: &Context<'_>, st: &mut Progress, scope: &Bindings, s: &Vec<Expr>, test: bool) -> (r:
    Values)
    ensures
        (final(st)@, nodes(r.irs@), tys(r.types@)) == lower_list(
            cx@,
            old(st)@,
            scope@,
            s@,
            test,
        ),
    decreases s@, 0nat, 0int,
{
    let mut irs: Vec<IrExpr> = Vec::new();
    let mut types: Vec<Type> = Vec::new();
    let mut i: usize = 0;
    proof {
        assert(s@.take(0).len() == 0);
        assert(nodes(irs@) =~= Seq::<Node>::empty());
        assert(tys(types@) =~= Seq::<Ty>::empty());
    }
    while i < s.len()
        invariant
            i <= s.len(),
            (st@, nodes(irs@), tys(types@)) == lower_list(
                cx@,
                old(st)@,
                scope@,
                s@.take(i as int),
                test,
            ),
        decreases s.len() - i,
    {
        let ghost before = nodes(irs@);
        let ghost before_tys = tys(types@);
        let v = expr(cx, st, scope, &s[i], &None, test);
        irs.push(v.ir);
        types.push(v.ty);
        proof {
            assert(s@.take(i + 1).drop_last() =~= s@.take(i as int));
            assert(s@.take(i + 1).last() == s@[i as int]);
            assert(nodes(irs@) =~= before.push(v@.node));
            assert(tys(types@) =~= before_tys.push(v@.ty));
        }
        i += 1;
    }
    assert(s@.take(s@.len() as int) =~= s@);
    Values { irs, types }
}

fn arguments(cx: &Context<'_>, st: &mut Progress, scope: &Bindings, s: &Vec<Expr>, params: &Vec<
    Type,
>, from: usize, test: bool) -> (r: Vec<IrExpr>)
    requires
        from <= 1,
    ensures
        (final(st)@, nodes(r@)) == lower_args(
            cx@,
            old(st)@,
            scope@,
            s@,
            tys(params@),
            from as nat,
            test,
        ),
    decreases s@, 0nat, 0int,
{
    let ghost ps = tys(params@);
    let mut irs: Vec<IrExpr> = Vec::new();
    let mut i: usize = 0;
    proof {
        assert(s@.take(0).len() == 0);
        assert(nodes(irs@) =~= Seq::<Node>::empty());
        assert(ps.len() == params@.len());
    }
    while i < s.len()
        invariant
            i <= s.len(),
            from <= 1,
            ps == tys(params@),
            ps.len() == params@.len(),
            (st@, nodes(irs@)) == lower_args(
                cx@,
                old(st)@,
                scope@,
                s@.take(i as int),
                ps,
                from as nat,
                test,
            ),
        decreases s.len() - i,
    {
        let ghost before = nodes(irs@);
        proof {
            assert(s@.take(i + 1).drop_last() =~= s@.take(i as int));
            assert(s@.take(i + 1).last() == s@[i as int]);
        }
        let expected = if i < params.len() && i + from < params.len() {
            assert(ps[i + from] == params@[i + from]@);
            Some(params[i + from].copy())
        } else {
            None
        };
        let v = expr(cx, st, scope, &s[i], &expected, test);
        irs.push(v.ir);
        assert(nodes(irs@) =~= before.push(v@.node));
        i += 1;
    }
    assert(s@.take(s@.len() as int) =~= s@);
    irs
}

fn array(cx: &Context<'_>, st: &mut Progress, scope: &Bindings, elements: &Vec<Expr>, expected: &Option<
    Type,
>, test: bool) -> (r: Lowered)
    ensures
        (final(st)@, r@) == lower_array(
            cx@,
            old(st)@,
            scope@,
            elements@,
            opt_ty(*expected),
            test,
        ),
    decreases elements@, 1nat, 0int,
{
    let found = list(cx, st, scope, elements, test);
    assert(tys(found.types@).len() == found.types@.len());
    let elem_ty = if found.types.len() > 0 {
        assert(tys(found.types@)[0] == found.types@[0]@);
        found.types[0].copy()
    } else {
        match expected {
            Some(t) => t.copy(),
            None => Type::Unit,
        }
    };
    let ty = Type::Array(Box::new(elem_ty.copy()));
    let ir = IrExpr::Array { elem_ty, elems: found.irs };
    assert(ir@ == (Node::Array { elem_ty: elem_ty@, elems: nodes(found.irs@) }));
    Lowered { ir, ty }
}

fn bound(cx: &Context<'_>, st: &mut Progress, scope: &Bindings, value: &Expr, annotated: &Option<
    Type,
>, test: bool) -> (r: Lowered)
    ensures
        (final(st)@, r@) == lower_bound(
            cx@,
            old(st)@,
            scope@,
            *value,
            opt_ty(*annotated),
            test,
        ),
    decreases value, 4nat, 0int,
{
    match value {
        Expr::Array(elements, _) => {
            let element = element_of(annotated);
            array(cx, st, scope, elements, &element, test)
        },
        _ => expr(cx, st, scope, value, annotated, test),
    }
}

fn bound_field(cx: &Context<'_>, st: &mut Progress, scope: &Bindings, f: &FieldInit, declared: &Type, test: bool) -> (r:
    Lowered)
    ensures
        (final(st)@, r@) == lower_bound_field(
            cx@,
            old(st)@,
            scope@,
            *f,
            declared@,
            test,
        ),
    decreases f, 0nat, 0int,
{
    match (&f.value, declared) {
        (Expr::Array(elements, _), Type::Array(element)) => {
            let expected = Some(element.copy());
            array(cx, st, scope, elements, &expected, test)
        },
        _ => expr(cx, st, scope, &f.value, &None, test),
    }
}

/// The fields of a literal so far.
struct FieldValues {
    vals: Vec<Lowered>,
    subst: Bindings,
    temps: Vec<String>,
}

/// What values say.
pub open spec fn vals(s: Seq<Lowered>) -> Seq<Val> {
    s.map_values(|v: Lowered| v@)
}

impl FieldValues {
    spec fn view(&self) -> Fields {
        Fields { vals: vals(self.vals@), subst: self.subst@, temps: texts(self.temps@) }
    }
}

fn field_values(cx: &Context<'_>, st: &mut Progress, scope: &Bindings, s: &Vec<FieldInit>, d: &RecordDecl, test: bool) -> (r:
    FieldValues)
    ensures
        (final(st)@, r@) == lower_fields(cx@, old(st)@, scope@, s@, s@.len(), *d, test),
    decreases s@, 1nat, 0int,
{
    let ordered = written_in_order(s, d);
    let mut r = FieldValues { vals: Vec::new(), subst: Bindings::none(), temps: Vec::new() };
    let mut i: usize = 0;
    assert(r@ =~= (Fields { vals: Seq::empty(), subst: Seq::empty(), temps: Seq::empty() }));
    while i < s.len()
        invariant
            i <= s.len(),
            ordered == in_order(s@, *d),
            (st@, r@) == lower_fields(cx@, old(st)@, scope@, s@, i as nat, *d, test),
        decreases s.len() - i,
    {
        let ghost before = r@;
        let declared = type_of_field(s, d, ordered, i);
        let v = bound_field(cx, st, scope, &s[i], &declared, test);
        infer_subst(&mut r.subst, &declared, &v.ty);
        r.vals.push(v);
        assert(vals(r.vals@) =~= before.vals.push(v@));
        if !ordered {
            let temp = st.fresh_statement("$fld");
            r.temps.push(temp);
            assert(texts(r.temps@) =~= before.temps.push(temp@));
        }
        i += 1;
    }
    r
}

fn find_temp(fields: &Vec<FieldInit>, f: &FieldValues, name: &str) -> (r: IrExpr)
    requires
        f.vals@.len() == fields@.len(),
        f.temps@.len() == fields@.len(),
    ensures
        r@ == temp_of(fields@, f@, name@, fields@.len()),
{
    let mut i: usize = fields.len();
    while i > 0
        invariant
            i <= fields.len(),
            f.vals@.len() == fields@.len(),
            f.temps@.len() == fields@.len(),
            temp_of(fields@, f@, name@, fields@.len()) == temp_of(
                fields@,
                f@,
                name@,
                i as nat,
            ),
        decreases i,
    {
        if same(fields[i - 1].name.as_str(), name) {
            assert(f@.temps[i - 1] == f.temps@[i - 1]@);
            assert(f@.vals[i - 1] == f.vals@[i - 1]@);
            return IrExpr::var(f.temps[i - 1].clone(), f.vals[i - 1].ty.copy());
        }
        i -= 1;
    }
    IrExpr::Unit
}

proof fn lemma_fields_len(cx: Cx, st: St, scope: Seq<Bind>, s: Seq<FieldInit>, n: nat, d: RecordDecl, test: bool)
    requires
        n <= s.len(),
    ensures
        lower_fields(cx, st, scope, s, n, d, test).1.vals.len() == n,
        !in_order(s, d) ==> lower_fields(cx, st, scope, s, n, d, test).1.temps.len() == n,
    decreases n,
{
    if n > 0 {
        lemma_fields_len(cx, st, scope, s, (n - 1) as nat, d, test);
    }
}

fn stored_fields(fields: &Vec<FieldInit>, d: &RecordDecl, f: &FieldValues) -> (r: Vec<IrExpr>)
    requires
        f.vals@.len() == fields@.len(),
        f.temps@.len() == fields@.len(),
    ensures
        nodes(r@) == stored(fields@, *d, f@),
{
    let ghost want = stored(fields@, *d, f@);
    let mut out: Vec<IrExpr> = Vec::new();
    let mut i: usize = 0;
    while i < d.fields.len()
        invariant
            i <= d.fields.len(),
            f.vals@.len() == fields@.len(),
            f.temps@.len() == fields@.len(),
            want == stored(fields@, *d, f@),
            out@.len() == i,
            forall|k: int| 0 <= k < i ==> (#[trigger] out@[k])@ == want[k],
        decreases d.fields.len() - i,
    {
        out.push(find_temp(fields, f, d.fields[i].name.as_str()));
        i += 1;
    }
    assert(nodes(out@) =~= want);
    out
}

fn ordered_nodes(s: Vec<Lowered>) -> (r: Vec<IrExpr>)
    ensures
        nodes(r@) == val_nodes(vals(s@)),
{
    let ghost all = s@;
    let mut out: Vec<IrExpr> = Vec::new();
    for v in iter: s
        invariant
            iter.seq() == all,
            out@.len() == iter.index(),
            forall|k: int| 0 <= k < iter.index() ==> (#[trigger] out@[k])@ == all[k]@.node,
    {
        out.push(v.ir);
    }
    assert(nodes(out@) =~= val_nodes(vals(all)));
    out
}

fn bind_fields(s: Vec<Lowered>, temps: &Vec<String>, next: IrExpr, Ghost(f): Ghost<Fields>) -> (r:
    IrExpr)
    requires
        s@.len() == temps@.len(),
        f.vals == vals(s@),
        f.temps == texts(temps@),
    ensures
        r@ == bound_fields(f, 0, next@),
{
    let ghost all = s@;
    let ghost last = next@;
    let mut s = s;
    let mut r = next;
    while s.len() > 0
        invariant
            s@.len() <= temps@.len(),
            s@.len() <= all.len(),
            all.len() == temps@.len(),
            s@ == all.take(s@.len() as int),
            f.vals == vals(all),
            f.temps == texts(temps@),
            r@ == bound_fields(f, s@.len() as int, last),
        decreases s@.len(),
    {
        let ghost n = s@.len() as int;
        let i: usize = s.len() - 1;
        if let Some(v) = s.pop() {
            proof {
                assert(v == all[n - 1]);
                assert(f.vals[n - 1] == v@);
                assert(f.temps[n - 1] == temps@[n - 1]@);
                assert(s@ =~= all.take(n - 1));
            }
            r = IrExpr::let_in(temps[i].clone(), v.ty, v.ir, r);
        }
    }
    r
}

fn record(cx: &Context<'_>, st: &mut Progress, scope: &Bindings, name: &str, fields: &Vec<FieldInit>, i: usize, test: bool) -> (r:
    Lowered)
    requires
        i < cx.program.records@.len(),
    ensures
        ({
            let d = cx@.program.records@[i as int];
            let (done, f) = lower_fields(
                cx@,
                old(st)@,
                scope@,
                fields@,
                fields@.len(),
                d,
                test,
            );
            (final(st)@, r@) == (done, record_value(name@, fields@, d, f))
        }),
    decreases fields@, 2nat, 0int,
{
    let d = &cx.program.records[i];
    let ghost start = st@;
    let f = field_values(cx, st, scope, fields, d, test);
    let ghost fv = f@;
    proof {
        lemma_fields_len(cx@, start, scope@, fields@, fields@.len(), *d, test);
        assert(fv.vals.len() == f.vals@.len());
        assert(fv.temps.len() == f.temps@.len());
    }
    let type_args = args_of_params(&d.type_params, &f.subst);
    let again = crate::types::copy_types(&type_args);
    let ty = Type::Enum(owned(name), type_args);
    let shown = Type::Enum(owned(name), again);
    assert(ty@ == Ty::Enum(name@, tys(type_args@)));
    assert(shown@ == Ty::Enum(name@, tys(again@)));
    if written_in_order(fields, d) {
        let inner = ordered_nodes(f.vals);
        let ir = IrExpr::RecordValue { ty, fields: inner };
        assert(ir@ == (Node::RecordValue { ty: ty@, fields: nodes(inner@) }));
        Lowered { ir, ty: shown }
    } else {
        let inner = stored_fields(fields, d, &f);
        let ir = IrExpr::RecordValue { ty, fields: inner };
        assert(ir@ == (Node::RecordValue { ty: ty@, fields: nodes(inner@) }));
        let all = bind_fields(f.vals, &f.temps, ir, Ghost(fv));
        Lowered { ir: all, ty: shown }
    }
}

fn arms(cx: &Context<'_>, st: &mut Progress, scope: &Bindings, s: &Vec<MatchArm>, ty: &Type, expected: &Option<
    Type,
>, test: bool) -> (r: Vec<IrArm>)
    ensures
        (final(st)@, arm_nodes(r@)) == lower_arms(
            cx@,
            old(st)@,
            scope@,
            s@,
            ty@,
            opt_ty(*expected),
            test,
        ),
    decreases s@, 0nat, 0int,
{
    let mut out: Vec<IrArm> = Vec::new();
    let mut i: usize = 0;
    proof {
        assert(s@.take(0).len() == 0);
        assert(arm_nodes(out@) =~= Seq::<ArmNode>::empty());
    }
    while i < s.len()
        invariant
            i <= s.len(),
            (st@, arm_nodes(out@)) == lower_arms(
                cx@,
                old(st)@,
                scope@,
                s@.take(i as int),
                ty@,
                opt_ty(*expected),
                test,
            ),
        decreases s.len() - i,
    {
        let ghost before = arm_nodes(out@);
        let lowered = arm(cx, st, scope, &s[i], ty, expected, test);
        out.push(lowered);
        proof {
            assert(s@.take(i + 1).drop_last() =~= s@.take(i as int));
            assert(s@.take(i + 1).last() == s@[i as int]);
            assert(arm_nodes(out@) =~= before.push(lowered@));
        }
        i += 1;
    }
    assert(s@.take(s@.len() as int) =~= s@);
    out
}

fn arm(cx: &Context<'_>, st: &mut Progress, scope: &Bindings, a: &MatchArm, ty: &Type, expected: &Option<
    Type,
>, test: bool) -> (r: IrArm)
    ensures
        (final(st)@, r@) == lower_arm(
            cx@,
            old(st)@,
            scope@,
            *a,
            ty@,
            opt_ty(*expected),
            test,
        ),
    decreases a, 0nat, 0int,
{
    let (pattern, inner) = lower_pattern(cx, scope, &a.pattern, ty);
    let guard = match &a.guard {
        Some(g) => Some(expr(cx, st, &inner, g, &None, test).ir),
        None => None,
    };
    let body = expr(cx, st, &inner, &a.body, expected, test).ir;
    let r = IrArm { pattern, guard, body };
    proof {
        assert(r@.body == Box::new(body@));
        assert(r@.guard == match guard {
            Some(g) => Some(Box::new(g@)),
            None => None,
        });
    }
    r
}

fn items(cx: &Context<'_>, st: &mut Progress, scope: &Bindings, s: &Vec<BlockItem>, i: usize, expected: &Option<
    Type,
>, test: bool) -> (r: Lowered)
    ensures
        (final(st)@, r@) == lower_items(
            cx@,
            old(st)@,
            scope@,
            s@,
            i as int,
            opt_ty(*expected),
            test,
        ),
    decreases s@, 2nat, s@.len() - i,
{
    if i >= s.len() {
        return Lowered { ir: IrExpr::Unit, ty: Type::Unit };
    }
    match &s[i] {
        BlockItem::Expr(e) => {
            if i + 1 == s.len() {
                expr(cx, st, scope, e, expected, test)
            } else {
                let v = expr(cx, st, scope, e, &None, test);
                let n = items(cx, st, scope, s, i + 1, expected, test);
                let name = st.fresh_statement("$stmt");
                Lowered { ir: IrExpr::let_in(name, v.ty, v.ir, n.ir), ty: n.ty }
            }
        },
        BlockItem::Let { name, ty, value, .. } => {
            let annotated = match ty {
                Some(t) => Some(cx.apply(t)),
                None => None,
            };
            let v = bound(cx, st, scope, value, &annotated, test);
            let value_ty = match annotated {
                Some(t) => t,
                None => v.ty,
            };
            let inner = scope.with(name.as_str(), value_ty.copy());
            let n = items(cx, st, &inner, s, i + 1, expected, test);
            Lowered { ir: IrExpr::let_in(name.clone(), value_ty, v.ir, n.ir), ty: n.ty }
        },
    }
}

fn params_of_value(v: &Lowered) -> (r: Vec<Type>)
    ensures
        tys(r@) == value_params(v@),
{
    match &v.ty {
        Type::Function(f) => {
            assert(f@.params == tys(f.params@));
            crate::types::copy_types(&f.params)
        },
        _ => {
            let none: Vec<Type> = Vec::new();
            assert(tys(none@) =~= Seq::<Ty>::empty());
            none
        },
    }
}

fn call_value(callee: Lowered, args: Vec<IrExpr>) -> (r: Lowered)
    ensures
        r@ == value_call(callee@, nodes(args@)),
{
    let ret = match &callee.ty {
        Type::Function(f) => {
            assert(f@.ret == Box::new(f.ret@));
            f.ret.copy()
        },
        _ => Type::Unit,
    };
    let ty = ret.copy();
    Lowered { ir: IrExpr::call(callee.ir, args, ret), ty }
}

fn call_target_with(cx: &Context<'_>, st: &mut Progress, target: Callee, args: Values, expected: &Option<
    Type,
>) -> (r: Lowered)
    requires
        target_in(cx@, target@),
    ensures
        (final(st)@, r@) == target_call(
            cx@,
            old(st)@,
            target@,
            nodes(args.irs@),
            tys(args.types@),
            opt_ty(*expected),
        ),
{
    match target {
        Callee::Present(enum_name, name) => value_of_variant(
            cx,
            enum_name.as_str(),
            name.as_str(),
            args.irs,
            &args.types,
        ),
        Callee::Foreign(i) => call_foreign(&cx.program.externs[i], args.irs, &args.types),
        Callee::Generic(i) => call_generic(cx, st, i, args.irs, &args.types),
        Callee::Trait(traits, method) => call_trait(
            cx,
            st,
            &traits,
            method.as_str(),
            args.irs,
            &args.types,
            expected,
        ),
        Callee::Variant(enum_name, variant) => value_of_variant(
            cx,
            enum_name.as_str(),
            variant.as_str(),
            args.irs,
            &args.types,
        ),
        Callee::Value => Lowered { ir: IrExpr::Unit, ty: Type::Unit },
    }
}

fn one_value(v: Lowered) -> (r: Values)
    ensures
        nodes(r.irs@) == seq![v@.node],
        tys(r.types@) == seq![v@.ty],
{
    let mut irs: Vec<IrExpr> = Vec::new();
    let mut types: Vec<Type> = Vec::new();
    irs.push(v.ir);
    types.push(v.ty);
    assert(nodes(irs@) =~= seq![v@.node]);
    assert(tys(types@) =~= seq![v@.ty]);
    Values { irs, types }
}

fn with_receiver(head: Lowered, rest: Values) -> (r: Values)
    ensures
        nodes(r.irs@) == seq![head@.node] + nodes(rest.irs@),
        tys(r.types@) == seq![head@.ty] + tys(rest.types@),
{
    let mut irs = rest.irs;
    let mut types = rest.types;
    irs.insert(0, head.ir);
    types.insert(0, head.ty);
    assert(nodes(irs@) =~= seq![head@.node] + nodes(rest.irs@));
    assert(tys(types@) =~= seq![head@.ty] + tys(rest.types@));
    Values { irs, types }
}

fn method_call(cx: &Context<'_>, st: &mut Progress, scope: &Bindings, recv: &str, method: &str, args: &Vec<
    Expr,
>, expected: &Option<Type>, test: bool) -> (r: Lowered)
    ensures
        ({
            let head = named_value(cx@, scope@, recv@);
            let target = name_target(cx@, scope@, method@);
            (final(st)@, r@) == (match target {
                Target::Value => {
                    let f = named_value(cx@, scope@, method@);
                    let (done, found) = lower_args(
                        cx@,
                        old(st)@,
                        scope@,
                        args@,
                        value_params(f),
                        1,
                        test,
                    );
                    (done, value_call(f, seq![head.node] + found))
                },
                Target::Present(..) => target_call(
                    cx@,
                    old(st)@,
                    target,
                    seq![head.node],
                    seq![head.ty],
                    opt_ty(*expected),
                ),
                _ => {
                    let (done, found, found_tys) = lower_list(
                        cx@,
                        old(st)@,
                        scope@,
                        args@,
                        test,
                    );
                    target_call(
                        cx@,
                        done,
                        target,
                        seq![head.node] + found,
                        seq![head.ty] + found_tys,
                        opt_ty(*expected),
                    )
                },
            })
        }),
    decreases args@, 1nat, 0int,
{
    let head = value_of_name(cx, scope, recv);
    let target = target_of_name(cx, scope, method);
    match target {
        Callee::Value => {
            let f = value_of_name(cx, scope, method);
            let params = params_of_value(&f);
            let rest = arguments(cx, st, scope, args, &params, 1, test);
            let mut all = rest;
            let ghost tail = nodes(all@);
            all.insert(0, head.ir);
            assert(nodes(all@) =~= seq![head@.node] + tail);
            call_value(f, all)
        },
        Callee::Present(a, b) => {
            let one = one_value(head);
            call_target_with(cx, st, Callee::Present(a, b), one, expected)
        },
        _ => {
            let rest = list(cx, st, scope, args, test);
            let all = with_receiver(head, rest);
            call_target_with(cx, st, target, all, expected)
        },
    }
}

fn call(cx: &Context<'_>, st: &mut Progress, scope: &Bindings, e: &Expr, expected: &Option<Type>, test: bool) -> (r:
    Lowered)
    requires
        e is Call,
    ensures
        (final(st)@, r@) == lower_call(
            cx@,
            old(st)@,
            scope@,
            *e,
            opt_ty(*expected),
            test,
        ),
    decreases e, 2nat, 0int,
{
    if let Expr::Call { callee, args, .. } = e {
        if let Expr::Path { segments, .. } = &**callee {
            if segments.len() == 2 && scope.get(segments[0].as_str()).is_some() {
                return method_call(
                    cx,
                    st,
                    scope,
                    segments[0].as_str(),
                    segments[1].as_str(),
                    args,
                    expected,
                    test,
                );
            }
        }
        let target = target_of_call(cx, scope, callee);
        match target {
            Callee::Value => {
                let f = expr(cx, st, scope, callee, &None, test);
                let params = params_of_value(&f);
                let found = arguments(cx, st, scope, args, &params, 0, test);
                call_value(f, found)
            },
            Callee::Present(a, b) => {
                if args.len() == 0 {
                    return Lowered { ir: IrExpr::Unit, ty: Type::Unit };
                }
                let v = expr(cx, st, scope, &args[0], &None, test);
                let one = one_value(v);
                call_target_with(cx, st, Callee::Present(a, b), one, expected)
            },
            _ => {
                let found = list(cx, st, scope, args, test);
                call_target_with(cx, st, target, found, expected)
            },
        }
    } else {
        Lowered { ir: IrExpr::Unit, ty: Type::Unit }
    }
}

fn lambda(cx: &Context<'_>, st: &mut Progress, scope: &Bindings, e: &Expr) -> (r: Lowered)
    requires
        e is Fn,
    ensures
        forall|expected: Option<Ty>, test: bool|
            (final(st)@, r@) == #[trigger] lower_expr(
                cx@,
                old(st)@,
                scope@,
                *e,
                expected,
                test,
            ),
    decreases e, 2nat, 0int,
{
    if let Expr::Fn { params, ret, throws, effects, body, .. } = e {
        let caps = lambda_captures(params, body, scope);
        let inner = scope_of_params(scope, params);
        let expected = Some(ret.copy());
        let v = items(cx, st, &inner, &body.items, 0, &expected, false);
        let binds = ir_params(params);
        let boxed = match throws {
            Some(t) => Some(Box::new(t.copy())),
            None => None,
        };
        let sig = FunctionType {
            params: types_of_params(params),
            ret: Box::new(ret.copy()),
            throws: boxed,
            effects: effects.copy(),
        };
        let thrown = copy_opt(throws);
        let row = effects.copy();
        let result = ret.copy();
        let ir = IrExpr::Fn {
            params: binds,
            ret: result,
            throws: thrown,
            effects: row,
            captures: caps,
            body: Box::new(v.ir),
        };
        let ty = Type::Function(sig);
        proof {
            assert(sig@ =~= (FnTy {
                params: param_tys(params@),
                ret: Box::new(ret@),
                throws: match opt_ty(*throws) {
                    Some(t) => Some(Box::new(t)),
                    None => None,
                },
                effects: effects@,
            }));
            assert(ty@ == Ty::Function(sig@));
            assert(ir@ == (Node::Fn {
                params: param_binds(binds@),
                ret: result@,
                throws: opt_ty(thrown),
                effects: row@,
                captures: capture_binds(caps@),
                body: Box::new(v.ir@),
            }));
        }
        Lowered { ir, ty }
    } else {
        Lowered { ir: IrExpr::Unit, ty: Type::Unit }
    }
}

/// Lowers an expression that contains no other.
fn leaf(cx: &Context<'_>, Ghost(st): Ghost<St>, scope: &Bindings, e: &Expr) -> (r: Lowered)
    requires
        e is Int || e is Float || e is Bool || e is String || e is Char || e is Unit || e is Var
            || e is TypePath || e is Path,
    ensures
        forall|expected: Option<Ty>, test: bool|
            (st, r@) == #[trigger] lower_expr(cx@, st, scope@, *e, expected, test),
{
    match e {
        Expr::Int(value, _) => Lowered { ir: IrExpr::Int(*value), ty: Type::Int },
        Expr::Float(value, _) => Lowered { ir: IrExpr::Float(shorten(value.as_str())), ty: Type::Float },
        Expr::Bool(value, _) => Lowered { ir: IrExpr::Bool(*value), ty: Type::Bool },
        Expr::String(value, _) => Lowered { ir: IrExpr::String(value.clone()), ty: Type::String },
        Expr::Char(value, _) => Lowered { ir: IrExpr::Char(*value as u32), ty: Type::Char },
        Expr::Var(name, _) => value_of_name(cx, scope, name.as_str()),
        Expr::TypePath { segments, .. } => value_of_type_path(cx, segments),
        Expr::Path { segments, .. } => value_of_path(cx, scope, segments),
        _ => Lowered { ir: IrExpr::Unit, ty: Type::Unit },
    }
}

fn at_site(cx: &Context<'_>, st: &mut Progress, v: Lowered, test: bool) -> (r: Lowered)
    ensures
        (final(st)@, r@) == if test {
            test_site(cx@, old(st)@, v@)
        } else {
            (old(st)@, v@)
        },
{
    if test {
        wrap_test_site(cx, st, v)
    } else {
        v
    }
}

/// Lowers an expression that is built from others.
fn compound(cx: &Context<'_>, st: &mut Progress, scope: &Bindings, e: &Expr, expected: &Option<
    Type,
>, test: bool) -> (r: Lowered)
    requires
        e is Array || e is RecordLiteral || e is Field || e is Call || e is Binary || e is Throw
            || e is Panic || e is Question,
    ensures
        (final(st)@, r@) == lower_expr(
            cx@,
            old(st)@,
            scope@,
            *e,
            opt_ty(*expected),
            test,
        ),
    decreases e, 2nat, 1int,
{
    match e {
        Expr::Array(elements, _) => array(cx, st, scope, elements, &None, test),
        Expr::RecordLiteral { name, fields, .. } => match find_record_named(
            &cx.program.records,
            name.as_str(),
        ) {
            Some(i) => record(cx, st, scope, name.as_str(), fields, i, test),
            None => Lowered { ir: IrExpr::Unit, ty: Type::Unit },
        },
        Expr::Field { target, name, .. } => {
            let v = expr(cx, st, scope, target, &None, test);
            access_field(cx, v, name.as_str())
        },
        Expr::Call { .. } => {
            let v = call(cx, st, scope, e, expected, test);
            at_site(cx, st, v, test)
        },
        Expr::Binary { op, left, right, .. } => {
            let a = expr(cx, st, scope, left, &None, test);
            let b = expr(cx, st, scope, right, &None, test);
            let v = lower_binary(cx, st, *op, a, b);
            at_site(cx, st, v, test)
        },
        Expr::Throw { value, .. } => {
            let v = expr(cx, st, scope, value, &None, test);
            let thrown = Lowered { ir: IrExpr::throw(v.ir), ty: Type::Never };
            at_site(cx, st, thrown, test)
        },
        Expr::Panic { message, .. } => {
            let v = expr(cx, st, scope, message, &None, test);
            Lowered { ir: IrExpr::Panic { message: Box::new(v.ir) }, ty: Type::Never }
        },
        Expr::Question { value, .. } => {
            let v = expr(cx, st, scope, value, &None, test);
            let ty = v.ty.copy();
            Lowered {
                ir: IrExpr::Question { value: Box::new(v.ir), mode: QuestionMode::Throws, ty },
                ty: v.ty,
            }
        },
        _ => Lowered { ir: IrExpr::Unit, ty: Type::Unit },
    }
}

fn pick(a: &Type, b: &Type) -> (r: Type)
    ensures
        r@ == picked(a@, b@),
{
    if matches!(a, Type::Never) {
        b.copy()
    } else {
        a.copy()
    }
}

/// Lowers an expression that decides what is evaluated.
fn control(cx: &Context<'_>, st: &mut Progress, scope: &Bindings, e: &Expr, expected: &Option<
    Type,
>, test: bool) -> (r: Lowered)
    requires
        e is Block || e is If || e is Match || e is Try,
    ensures
        (final(st)@, r@) == lower_expr(
            cx@,
            old(st)@,
            scope@,
            *e,
            opt_ty(*expected),
            test,
        ),
    decreases e, 2nat, 1int,
{
    match e {
        Expr::Block(block) => items(cx, st, scope, &block.items, 0, expected, test),
        Expr::If { cond, then, els, .. } => {
            let c = expr(cx, st, scope, cond, &None, test);
            let a = items(cx, st, scope, &then.items, 0, expected, test);
            let b = items(cx, st, scope, &els.items, 0, expected, test);
            let ty = pick(&a.ty, &b.ty);
            let shown = ty.copy();
            Lowered {
                ir: IrExpr::If {
                    cond: Box::new(c.ir),
                    then: Box::new(a.ir),
                    els: Box::new(b.ir),
                    ty,
                },
                ty: shown,
            }
        },
        Expr::Match { scrutinee, arms: all, .. } => {
            let v = expr(cx, st, scope, scrutinee, &None, test);
            let lowered = arms(cx, st, scope, all, &v.ty, expected, test);
            let ty = pick_arms(Type::Never, &lowered);
            let shown = ty.copy();
            Lowered { ir: IrExpr::match_of(v.ir, lowered, ty), ty: shown }
        },
        Expr::Try { body, arms: all, .. } => {
            let v = items(cx, st, scope, &body.items, 0, &None, false);
            let error = match error_of_body(&v.ir) {
                Some(t) => t,
                None => Type::Never,
            };
            let lowered = arms(cx, st, scope, all, &error, &None, test);
            let ty = pick_arms(v.ty, &lowered);
            let shown = ty.copy();
            let ir = IrExpr::Try { body: Box::new(v.ir), arms: lowered, ty, err_name: None };
            assert(ir@ == (Node::Try {
                body: Box::new(v.ir@),
                arms: arm_nodes(lowered@),
                ty: ty@,
                err_name: None,
            }));
            Lowered { ir, ty: shown }
        },
        _ => Lowered { ir: IrExpr::Unit, ty: Type::Unit },
    }
}

/// Lowers an expression.
pub fn expr(cx: &Context<'_>, st: &mut Progress, scope: &Bindings, e: &Expr, expected: &Option<Type>, test: bool) -> (r:
    Lowered)
    ensures
        (final(st)@, r@) == lower_expr(
            cx@,
            old(st)@,
            scope@,
            *e,
            opt_ty(*expected),
            test,
        ),
    decreases e, 3nat, 0int,
{
    if matches!(
        e,
        Expr::Int(..)
            | Expr::Float(..)
            | Expr::Bool(..)
            | Expr::String(..)
            | Expr::Char(..)
            | Expr::Unit(..)
            | Expr::Var(..)
            | Expr::TypePath { .. }
            | Expr::Path { .. }
    ) {
        leaf(cx, Ghost(st@), scope, e)
    } else if matches!(e, Expr::Fn { .. }) {
        lambda(cx, st, scope, e)
    } else if matches!(
        e,
        Expr::Block(_) | Expr::If { .. } | Expr::Match { .. } | Expr::Try { .. }
    ) {
        control(cx, st, scope, e, expected, test)
    } else {
        compound(cx, st, scope, e, expected, test)
    }
}

/// Lowers a block.
pub fn block(cx: &Context<'_>, st: &mut Progress, scope: &Bindings, b: &Block, expected: &Option<Type>, test: bool) -> (r:
    Lowered)
    ensures
        (final(st)@, r@) == lower_items(
            cx@,
            old(st)@,
            scope@,
            b.items@,
            0,
            opt_ty(*expected),
            test,
        ),
{
    items(cx, st, scope, &b.items, 0, expected, test)
}

} // verus!
