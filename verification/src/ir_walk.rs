//! Shared read-only traversal of the IR, and copies of its trees.
//!
//! Backends need to walk a program for several purposes: discovering the
//! intrinsics and platform functions it references (for coverage checks and
//! runtime bundling), collecting lambdas, and so on. The traversal lives here
//! so every pass shares one definition.

use vstd::prelude::*;

use crate::ir::{
    arm_nodes, capture_binds, nodes, opt_bind, opt_binds, param_binds, ArmNode, FnNode, IrArm,
    IrCapture, IrExpr, IrFunction, IrParam, IrPattern, IrProgram, Node,
};
use crate::strings::{contains_name, texts};
use crate::types::{copy_opt, Type};

verus! {

/// The sub-expressions of `e`, parents before children.
pub open spec fn preorder(e: Node) -> Seq<Node>
    decreases e,
{
    seq![e] + match e {
        Node::Array { elems, .. } => preorder_all(elems),
        Node::Let { value, next, .. } => preorder(*value) + preorder(*next),
        Node::Call { callee, args, .. } => preorder(*callee) + preorder_all(args),
        Node::Platform { args, .. } => preorder_all(args),
        Node::Intrinsic { args, .. } => preorder_all(args),
        Node::TailSelfCall { args, .. } => preorder_all(args),
        Node::If { cond, then, els, .. } => preorder(*cond) + preorder(*then) + preorder(*els),
        Node::Fn { body, .. } => preorder(*body),
        Node::Binary { left, right, .. } => preorder(*left) + preorder(*right),
        Node::Concat { left, right } => preorder(*left) + preorder(*right),
        Node::EnumValue { payload, .. } => preorder_all(payload),
        Node::RecordValue { fields, .. } => preorder_all(fields),
        Node::FieldAccess { target, .. } => preorder(*target),
        Node::Match { scrutinee, arms, .. } => preorder(*scrutinee) + preorder_arms(arms),
        Node::Try { body, arms, .. } => preorder(*body) + preorder_arms(arms),
        Node::Throw { value } => preorder(*value),
        Node::Question { value, .. } => preorder(*value),
        Node::Panic { message } => preorder(*message),
        Node::CharFromCode(value) => preorder(*value),
        Node::StringFromChar(value) => preorder(*value),
        Node::Retain { value } => preorder(*value),
        Node::Release { next, .. } => preorder(*next),
        Node::Int(_) | Node::Float(_) | Node::Bool(_) | Node::String(_) | Node::Char(_)
        | Node::Unit | Node::Var { .. } | Node::FunctionRef { .. } => Seq::empty(),
    }
}

/// The sub-expressions of a list of expressions, in order.
pub open spec fn preorder_all(s: Seq<Node>) -> Seq<Node>
    decreases s,
{
    if s.len() == 0 {
        Seq::empty()
    } else {
        preorder_all(s.drop_last()) + preorder(s.last())
    }
}

/// The sub-expressions of an arm: its guard's, then its body's.
pub open spec fn preorder_arm(arm: ArmNode) -> Seq<Node>
    decreases arm,
{
    match arm.guard {
        Some(guard) => preorder(*guard) + preorder(*arm.body),
        None => preorder(*arm.body),
    }
}

/// The sub-expressions of a list of arms, in order.
pub open spec fn preorder_arms(s: Seq<ArmNode>) -> Seq<Node>
    decreases s,
{
    if s.len() == 0 {
        Seq::empty()
    } else {
        preorder_arms(s.drop_last()) + preorder_arm(s.last())
    }
}

/// The sub-expressions of the bodies of a program, function by function.
pub open spec fn preorder_program(p: Seq<FnNode>) -> Seq<Node>
    decreases p.len(),
{
    if p.len() == 0 {
        Seq::empty()
    } else {
        preorder_program(p.drop_last()) + preorder(p.last().body)
    }
}

/// What a list of borrowed expressions says.
pub open spec fn refs(s: Seq<&IrExpr>) -> Seq<Node> {
    s.map_values(|e: &IrExpr| e@)
}

/// Every sub-expression of every body of a program, in pre-order.
pub fn walk_program<'a>(program: &'a IrProgram) -> (r: Vec<&'a IrExpr>)
    ensures
        refs(r@) == preorder_program(program@),
{
    let ghost p = program@;
    let mut out: Vec<&'a IrExpr> = Vec::new();
    let mut i: usize = 0;
    assert(p.take(0).len() == 0);
    assert(refs(out@) =~= preorder_program(p.take(0)));
    while i < program.functions.len()
        invariant
            i <= program.functions.len(),
            p == program@,
            refs(out@) == preorder_program(p.take(i as int)),
        decreases program.functions.len() - i,
    {
        walk_into(&program.functions[i].body, &mut out);
        proof {
            assert(p.take(i + 1).drop_last() =~= p.take(i as int));
            assert(p.take(i + 1).last() == program.functions@[i as int]@);
        }
        i += 1;
    }
    assert(p.take(p.len() as int) =~= p);
    out
}

/// Every sub-expression of `expr`, parents before children (pre-order).
pub fn walk<'a>(expr: &'a IrExpr) -> (r: Vec<&'a IrExpr>)
    ensures
        refs(r@) == preorder(expr@),
{
    let mut out: Vec<&'a IrExpr> = Vec::new();
    walk_into(expr, &mut out);
    assert(refs(out@) =~= preorder(expr@));
    out
}

fn walk_into<'a>(expr: &'a IrExpr, out: &mut Vec<&'a IrExpr>)
    ensures
        refs(final(out)@) == refs(old(out)@) + preorder(expr@),
    decreases expr,
{
    let ghost before = refs(out@);
    out.push(expr);
    assert(refs(out@) =~= before + seq![expr@]);
    match expr {
        IrExpr::Array { elems, .. } => walk_all(elems, out),
        IrExpr::Let { value, next, .. } => {
            walk_into(value, out);
            walk_into(next, out);
        },
        IrExpr::Call { callee, args, .. } => {
            walk_into(callee, out);
            walk_all(args, out);
        },
        IrExpr::Platform { args, .. } => walk_all(args, out),
        IrExpr::Intrinsic { args, .. } => walk_all(args, out),
        IrExpr::TailSelfCall { args, .. } => walk_all(args, out),
        IrExpr::If { cond, then, els, .. } => {
            walk_into(cond, out);
            walk_into(then, out);
            walk_into(els, out);
        },
        IrExpr::Fn { body, .. } => walk_into(body, out),
        IrExpr::Binary { left, right, .. } => {
            walk_into(left, out);
            walk_into(right, out);
        },
        IrExpr::Concat { left, right } => {
            walk_into(left, out);
            walk_into(right, out);
        },
        IrExpr::EnumValue { payload, .. } => walk_all(payload, out),
        IrExpr::RecordValue { fields, .. } => walk_all(fields, out),
        IrExpr::FieldAccess { target, .. } => walk_into(target, out),
        IrExpr::Match { scrutinee, arms, .. } => {
            walk_into(scrutinee, out);
            walk_arms(arms, out);
        },
        IrExpr::Try { body, arms, .. } => {
            walk_into(body, out);
            walk_arms(arms, out);
        },
        IrExpr::Throw { value } => walk_into(value, out),
        IrExpr::Question { value, .. } => walk_into(value, out),
        IrExpr::Panic { message } => walk_into(message, out),
        IrExpr::CharFromCode(value) => walk_into(value, out),
        IrExpr::StringFromChar(value) => walk_into(value, out),
        IrExpr::Retain { value } => walk_into(value, out),
        IrExpr::Release { next, .. } => walk_into(next, out),
        IrExpr::Int(_) | IrExpr::Float(_) | IrExpr::Bool(_) | IrExpr::String(_) | IrExpr::Char(_)
        | IrExpr::Unit | IrExpr::Var { .. } | IrExpr::FunctionRef { .. } => {},
    }
    assert(refs(out@) =~= before + preorder(expr@));
}

fn walk_all<'a>(exprs: &'a Vec<IrExpr>, out: &mut Vec<&'a IrExpr>)
    ensures
        refs(final(out)@) == refs(old(out)@) + preorder_all(nodes(exprs@)),
    decreases exprs@,
{
    let ghost all = nodes(exprs@);
    let mut i: usize = 0;
    assert(refs(out@) =~= refs(old(out)@) + preorder_all(all.take(0)));
    while i < exprs.len()
        invariant
            i <= exprs.len(),
            all == nodes(exprs@),
            refs(out@) == refs(old(out)@) + preorder_all(all.take(i as int)),
        decreases exprs.len() - i,
    {
        walk_into(&exprs[i], out);
        proof {
            assert(all.take(i + 1).drop_last() =~= all.take(i as int));
            assert(refs(out@) =~= refs(old(out)@) + preorder_all(all.take(i + 1)));
        }
        i += 1;
    }
    assert(all.take(all.len() as int) =~= all);
}

fn walk_arm<'a>(arm: &'a IrArm, out: &mut Vec<&'a IrExpr>)
    ensures
        refs(final(out)@) == refs(old(out)@) + preorder_arm(arm@),
    decreases arm,
{
    if let Some(guard) = &arm.guard {
        walk_into(guard, out);
    }
    walk_into(&arm.body, out);
    assert(refs(out@) =~= refs(old(out)@) + preorder_arm(arm@));
}

fn walk_arms<'a>(arms: &'a Vec<IrArm>, out: &mut Vec<&'a IrExpr>)
    ensures
        refs(final(out)@) == refs(old(out)@) + preorder_arms(arm_nodes(arms@)),
    decreases arms@,
{
    let ghost all = arm_nodes(arms@);
    let mut i: usize = 0;
    assert(refs(out@) =~= refs(old(out)@) + preorder_arms(all.take(0)));
    while i < arms.len()
        invariant
            i <= arms.len(),
            all == arm_nodes(arms@),
            refs(out@) == refs(old(out)@) + preorder_arms(all.take(i as int)),
        decreases arms.len() - i,
    {
        walk_arm(&arms[i], out);
        proof {
            assert(all.take(i + 1).drop_last() =~= all.take(i as int));
            assert(refs(out@) =~= refs(old(out)@) + preorder_arms(all.take(i + 1)));
        }
        i += 1;
    }
    assert(all.take(all.len() as int) =~= all);
}

/// The expressions of `s` that name an intrinsic, as names in order.
pub open spec fn intrinsic_names(s: Seq<Node>) -> Seq<Seq<char>>
    decreases s.len(),
{
    if s.len() == 0 {
        Seq::empty()
    } else {
        match s.last() {
            Node::Intrinsic { name, .. } => intrinsic_names(s.drop_last()).push(name),
            _ => intrinsic_names(s.drop_last()),
        }
    }
}

/// The expressions of `s` that name a platform function, as names in order.
pub open spec fn platform_names(s: Seq<Node>) -> Seq<Seq<char>>
    decreases s.len(),
{
    if s.len() == 0 {
        Seq::empty()
    } else {
        match s.last() {
            Node::Platform { name, .. } => platform_names(s.drop_last()).push(name),
            _ => platform_names(s.drop_last()),
        }
    }
}

/// `s` without the texts that occurred earlier: each text once, in
/// first-occurrence order.
pub open spec fn first_occurrences(s: Seq<Seq<char>>) -> Seq<Seq<char>>
    decreases s.len(),
{
    if s.len() == 0 {
        Seq::empty()
    } else {
        let rest = first_occurrences(s.drop_last());
        if rest.contains(s.last()) {
            rest
        } else {
            rest.push(s.last())
        }
    }
}

/// Listing first occurrences drops no name and repeats none.
pub proof fn first_occurrences_are_the_members(s: Seq<Seq<char>>)
    ensures
        first_occurrences(s).no_duplicates(),
        forall|x: Seq<char>| first_occurrences(s).contains(x) <==> s.contains(x),
    decreases s.len(),
{
    if s.len() > 0 {
        let init = s.drop_last();
        let rest = first_occurrences(init);
        first_occurrences_are_the_members(init);
        assert forall|x: Seq<char>| first_occurrences(s).contains(x) <==> s.contains(x) by {
            if init.contains(x) {
                let k = choose|k: int| 0 <= k < init.len() && init[k] == x;
                assert(s[k] == x);
                let m = choose|m: int| 0 <= m < rest.len() && rest[m] == x;
                assert(first_occurrences(s)[m] == x);
            }
            if s.contains(x) && !init.contains(x) {
                let k = choose|k: int| 0 <= k < s.len() && s[k] == x;
                if k < s.len() - 1 {
                    assert(init[k] == x);
                }
                assert(x == s.last());
                assert(first_occurrences(s).last() == x);
            }
            if first_occurrences(s).contains(x) && !s.contains(x) {
                assert(s[s.len() - 1] == s.last());
                let u = first_occurrences(s);
                let m = choose|m: int| 0 <= m < u.len() && u[m] == x;
                if m < rest.len() {
                    assert(rest[m] == x);
                }
            }
        }
    }
}

fn add_first(order: &mut Vec<String>, name: &String)
    ensures
        texts(final(order)@) == if texts(old(order)@).contains(name@) {
            texts(old(order)@)
        } else {
            texts(old(order)@).push(name@)
        },
{
    if !contains_name(order, name.as_str()) {
        order.push(name.clone());
        assert(texts(order@) =~= texts(old(order)@).push(name@));
    }
}

/// The intrinsic names the program references, in first-occurrence order.
pub fn used_intrinsics(program: &IrProgram) -> (r: Vec<String>)
    ensures
        texts(r@) == first_occurrences(intrinsic_names(preorder_program(program@))),
{
    let mut order: Vec<String> = Vec::new();
    let ghost p = program@;
    let mut i: usize = 0;
    assert(texts(order@) =~= Seq::<Seq<char>>::empty());
    while i < program.functions.len()
        invariant
            i <= program.functions.len(),
            p == program@,
            texts(order@) == first_occurrences(
                intrinsic_names(preorder_program(p.take(i as int))),
            ),
        decreases program.functions.len() - i,
    {
        let found = walk(&program.functions[i].body);
        let ghost base = preorder_program(p.take(i as int));
        let ghost all = refs(found@);
        let mut j: usize = 0;
        assert(base + all.take(0) =~= base);
        while j < found.len()
            invariant
                j <= found.len(),
                all == refs(found@),
                texts(order@) == first_occurrences(intrinsic_names(base + all.take(j as int))),
            decreases found.len() - j,
        {
            if let IrExpr::Intrinsic { name, .. } = found[j] {
                add_first(&mut order, name);
            }
            proof {
                let s = base + all.take(j + 1);
                assert(s.drop_last() =~= base + all.take(j as int));
                assert(s.last() == all[j as int]);
                assert(found@[j as int]@ == all[j as int]);
                let n = intrinsic_names(s);
                let m = intrinsic_names(s.drop_last());
                if let Node::Intrinsic { name, .. } = s.last() {
                    assert(n.drop_last() =~= m);
                }
            }
            j += 1;
        }
        proof {
            assert(all.take(all.len() as int) =~= all);
            assert(p.take(i + 1).drop_last() =~= p.take(i as int));
            assert(p[i as int] == program.functions@[i as int]@);
        }
        i += 1;
    }
    assert(p.take(p.len() as int) =~= p);
    order
}

/// The platform-function names the program references, in first-occurrence order.
pub fn used_platform_fns(program: &IrProgram) -> (r: Vec<String>)
    ensures
        texts(r@) == first_occurrences(platform_names(preorder_program(program@))),
{
    let mut order: Vec<String> = Vec::new();
    let ghost p = program@;
    let mut i: usize = 0;
    assert(texts(order@) =~= Seq::<Seq<char>>::empty());
    while i < program.functions.len()
        invariant
            i <= program.functions.len(),
            p == program@,
            texts(order@) == first_occurrences(platform_names(preorder_program(p.take(i as int)))),
        decreases program.functions.len() - i,
    {
        let found = walk(&program.functions[i].body);
        let ghost base = preorder_program(p.take(i as int));
        let ghost all = refs(found@);
        let mut j: usize = 0;
        assert(base + all.take(0) =~= base);
        while j < found.len()
            invariant
                j <= found.len(),
                all == refs(found@),
                texts(order@) == first_occurrences(platform_names(base + all.take(j as int))),
            decreases found.len() - j,
        {
            if let IrExpr::Platform { name, .. } = found[j] {
                add_first(&mut order, name);
            }
            proof {
                let s = base + all.take(j + 1);
                assert(s.drop_last() =~= base + all.take(j as int));
                assert(s.last() == all[j as int]);
                assert(found@[j as int]@ == all[j as int]);
                let n = platform_names(s);
                let m = platform_names(s.drop_last());
                if let Node::Platform { name, .. } = s.last() {
                    assert(n.drop_last() =~= m);
                }
            }
            j += 1;
        }
        proof {
            assert(all.take(all.len() as int) =~= all);
            assert(p.take(i + 1).drop_last() =~= p.take(i as int));
            assert(p[i as int] == program.functions@[i as int]@);
        }
        i += 1;
    }
    assert(p.take(p.len() as int) =~= p);
    order
}

/// A copy of a list of parameters.
pub fn copy_params(params: &Vec<IrParam>) -> (r: Vec<IrParam>)
    ensures
        param_binds(r@) == param_binds(params@),
{
    let mut out: Vec<IrParam> = Vec::new();
    let mut i: usize = 0;
    while i < params.len()
        invariant
            i <= params.len(),
            out@.len() == i,
            forall|j: int| 0 <= j < i ==> (#[trigger] out@[j])@ == params@[j]@,
        decreases params.len() - i,
    {
        out.push(params[i].copy());
        i += 1;
    }
    assert(param_binds(out@) =~= param_binds(params@));
    out
}

/// A copy of a list of captures.
pub fn copy_captures(captures: &Vec<IrCapture>) -> (r: Vec<IrCapture>)
    ensures
        capture_binds(r@) == capture_binds(captures@),
{
    let mut out: Vec<IrCapture> = Vec::new();
    let mut i: usize = 0;
    while i < captures.len()
        invariant
            i <= captures.len(),
            out@.len() == i,
            forall|j: int| 0 <= j < i ==> (#[trigger] out@[j])@ == captures@[j]@,
        decreases captures.len() - i,
    {
        out.push(captures[i].copy());
        i += 1;
    }
    assert(capture_binds(out@) =~= capture_binds(captures@));
    out
}

fn copy_binding(binding: &Option<(String, Type)>) -> (r: Option<(String, Type)>)
    ensures
        opt_bind(r) == opt_bind(*binding),
{
    match binding {
        Some((name, ty)) => Some((name.clone(), ty.copy())),
        None => None,
    }
}

impl IrPattern {
    /// A copy of the pattern.
    pub fn copy(&self) -> (r: IrPattern)
        ensures
            r@ == self@,
    {
        match self {
            IrPattern::Wildcard { binding } => IrPattern::Wildcard {
                binding: copy_binding(binding),
            },
            IrPattern::Variant { variant, tag, bindings } => {
                let mut out: Vec<Option<(String, Type)>> = Vec::new();
                let mut i: usize = 0;
                while i < bindings.len()
                    invariant
                        i <= bindings.len(),
                        out@.len() == i,
                        forall|j: int|
                            0 <= j < i ==> opt_bind(#[trigger] out@[j]) == opt_bind(bindings@[j]),
                    decreases bindings.len() - i,
                {
                    out.push(copy_binding(&bindings[i]));
                    i += 1;
                }
                assert(opt_binds(out@) =~= opt_binds(bindings@));
                IrPattern::Variant { variant: variant.clone(), tag: *tag, bindings: out }
            },
        }
    }
}

/// A copy of a list of expressions.
pub fn copy_exprs(exprs: &Vec<IrExpr>) -> (r: Vec<IrExpr>)
    ensures
        nodes(r@) == nodes(exprs@),
    decreases exprs@,
{
    let mut out: Vec<IrExpr> = Vec::new();
    let mut i: usize = 0;
    while i < exprs.len()
        invariant
            i <= exprs.len(),
            out@.len() == i,
            forall|j: int| 0 <= j < i ==> (#[trigger] out@[j])@ == exprs@[j]@,
        decreases exprs.len() - i,
    {
        let e = exprs[i].copy();
        out.push(e);
        i += 1;
    }
    assert(nodes(out@) =~= nodes(exprs@));
    out
}

fn copy_arms(arms: &Vec<IrArm>) -> (r: Vec<IrArm>)
    ensures
        arm_nodes(r@) == arm_nodes(arms@),
    decreases arms@,
{
    let mut out: Vec<IrArm> = Vec::new();
    let mut i: usize = 0;
    while i < arms.len()
        invariant
            i <= arms.len(),
            out@.len() == i,
            forall|j: int| 0 <= j < i ==> (#[trigger] out@[j])@ == arms@[j]@,
        decreases arms.len() - i,
    {
        let guard = match &arms[i].guard {
            Some(g) => Some(g.copy()),
            None => None,
        };
        let arm = IrArm { pattern: arms[i].pattern.copy(), guard, body: arms[i].body.copy() };
        assert(arm@ =~= arms@[i as int]@);
        out.push(arm);
        i += 1;
    }
    assert(arm_nodes(out@) =~= arm_nodes(arms@));
    out
}

impl IrExpr {
    /// A copy of the expression.
    pub fn copy(&self) -> (r: IrExpr)
        ensures
            r@ == self@,
        decreases self,
    {
        match self {
            IrExpr::Int(v) => IrExpr::Int(*v),
            IrExpr::Float(v) => IrExpr::Float(v.clone()),
            IrExpr::Bool(v) => IrExpr::Bool(*v),
            IrExpr::String(v) => IrExpr::String(v.clone()),
            IrExpr::Char(v) => IrExpr::Char(*v),
            IrExpr::Unit => IrExpr::Unit,
            IrExpr::Array { elem_ty, elems } => IrExpr::Array {
                elem_ty: elem_ty.copy(),
                elems: copy_exprs(elems),
            },
            IrExpr::Var { name, ty } => IrExpr::Var { name: name.clone(), ty: ty.copy() },
            IrExpr::FunctionRef { name, sig } => IrExpr::FunctionRef {
                name: name.clone(),
                sig: sig.copy(),
            },
            IrExpr::Let { name, value_ty, value, next } => IrExpr::Let {
                name: name.clone(),
                value_ty: value_ty.copy(),
                value: Box::new(value.copy()),
                next: Box::new(next.copy()),
            },
            IrExpr::Call { callee, args, ret } => IrExpr::Call {
                callee: Box::new(callee.copy()),
                args: copy_exprs(args),
                ret: ret.copy(),
            },
            IrExpr::Platform { name, args, ret, throws } => IrExpr::Platform {
                name: name.clone(),
                args: copy_exprs(args),
                ret: ret.copy(),
                throws: copy_opt(throws),
            },
            IrExpr::Intrinsic { name, args, ret } => IrExpr::Intrinsic {
                name: name.clone(),
                args: copy_exprs(args),
                ret: ret.copy(),
            },
            IrExpr::Fn { params, ret, throws, effects, captures, body } => IrExpr::Fn {
                params: copy_params(params),
                ret: ret.copy(),
                throws: copy_opt(throws),
                effects: effects.copy(),
                captures: copy_captures(captures),
                body: Box::new(body.copy()),
            },
            IrExpr::Binary { op, ty, left, right } => IrExpr::Binary {
                op: *op,
                ty: ty.copy(),
                left: Box::new(left.copy()),
                right: Box::new(right.copy()),
            },
            IrExpr::If { cond, then, els, ty } => IrExpr::If {
                cond: Box::new(cond.copy()),
                then: Box::new(then.copy()),
                els: Box::new(els.copy()),
                ty: ty.copy(),
            },
            IrExpr::CharFromCode(v) => IrExpr::CharFromCode(Box::new(v.copy())),
            IrExpr::StringFromChar(v) => IrExpr::StringFromChar(Box::new(v.copy())),
            IrExpr::Concat { left, right } => IrExpr::Concat {
                left: Box::new(left.copy()),
                right: Box::new(right.copy()),
            },
            IrExpr::EnumValue { ty, variant, tag, payload } => IrExpr::EnumValue {
                ty: ty.copy(),
                variant: variant.clone(),
                tag: *tag,
                payload: copy_exprs(payload),
            },
            IrExpr::RecordValue { ty, fields } => IrExpr::RecordValue {
                ty: ty.copy(),
                fields: copy_exprs(fields),
            },
            IrExpr::FieldAccess { target, index, field_ty } => IrExpr::FieldAccess {
                target: Box::new(target.copy()),
                index: *index,
                field_ty: field_ty.copy(),
            },
            IrExpr::Match { scrutinee, arms, ty } => IrExpr::Match {
                scrutinee: Box::new(scrutinee.copy()),
                arms: copy_arms(arms),
                ty: ty.copy(),
            },
            IrExpr::Throw { value } => IrExpr::Throw { value: Box::new(value.copy()) },
            IrExpr::Try { body, arms, ty, err_name } => {
                let err_name = match err_name {
                    Some(n) => Some(n.clone()),
                    None => None,
                };
                IrExpr::Try {
                    body: Box::new(body.copy()),
                    arms: copy_arms(arms),
                    ty: ty.copy(),
                    err_name,
                }
            },
            IrExpr::Question { value, mode, ty } => IrExpr::Question {
                value: Box::new(value.copy()),
                mode: *mode,
                ty: ty.copy(),
            },
            IrExpr::Panic { message } => IrExpr::Panic { message: Box::new(message.copy()) },
            IrExpr::TailSelfCall { args, ty } => IrExpr::TailSelfCall {
                args: copy_exprs(args),
                ty: ty.copy(),
            },
            IrExpr::Retain { value } => IrExpr::Retain { value: Box::new(value.copy()) },
            IrExpr::Release { name, ty, next } => IrExpr::Release {
                name: name.clone(),
                ty: ty.copy(),
                next: Box::new(next.copy()),
            },
        }
    }
}

impl IrExpr {
    /// A read of a variable.
    pub fn var(name: String, ty: Type) -> (r: IrExpr)
        ensures
            r@ == (Node::Var { name: name@, ty: ty@ }),
    {
        IrExpr::Var { name, ty }
    }

    /// `let name = value; next`.
    pub fn let_in(name: String, value_ty: Type, value: IrExpr, next: IrExpr) -> (r: IrExpr)
        ensures
            r@ == (Node::Let {
                name: name@,
                value_ty: value_ty@,
                value: Box::new(value@),
                next: Box::new(next@),
            }),
    {
        IrExpr::Let { name, value_ty, value: Box::new(value), next: Box::new(next) }
    }

    /// `release name; next`.
    pub fn release(name: String, ty: Type, next: IrExpr) -> (r: IrExpr)
        ensures
            r@ == (Node::Release { name: name@, ty: ty@, next: Box::new(next@) }),
    {
        IrExpr::Release { name, ty, next: Box::new(next) }
    }

    /// The value, retained.
    pub fn retain(value: IrExpr) -> (r: IrExpr)
        ensures
            r@ == (Node::Retain { value: Box::new(value@) }),
    {
        IrExpr::Retain { value: Box::new(value) }
    }

    /// `throw value`.
    pub fn throw(value: IrExpr) -> (r: IrExpr)
        ensures
            r@ == (Node::Throw { value: Box::new(value@) }),
    {
        IrExpr::Throw { value: Box::new(value) }
    }

    /// `match scrutinee { arms }`.
    pub fn match_of(scrutinee: IrExpr, arms: Vec<IrArm>, ty: Type) -> (r: IrExpr)
        ensures
            r@ == (Node::Match {
                scrutinee: Box::new(scrutinee@),
                arms: arm_nodes(arms@),
                ty: ty@,
            }),
    {
        IrExpr::Match { scrutinee: Box::new(scrutinee), arms, ty }
    }

    /// `callee(args)`.
    pub fn call(callee: IrExpr, args: Vec<IrExpr>, ret: Type) -> (r: IrExpr)
        ensures
            r@ == (Node::Call { callee: Box::new(callee@), args: nodes(args@), ret: ret@ }),
    {
        IrExpr::Call { callee: Box::new(callee), args, ret }
    }
}

impl IrFunction {
    /// A copy of the function.
    pub fn copy(&self) -> (r: IrFunction)
        ensures
            r@ == self@,
    {
        IrFunction {
            name: self.name.clone(),
            params: copy_params(&self.params),
            ret: self.ret.copy(),
            throws: copy_opt(&self.throws),
            effects: self.effects.copy(),
            body: self.body.copy(),
        }
    }
}

impl IrProgram {
    /// A copy of the program.
    pub fn copy(&self) -> (r: IrProgram)
        ensures
            r@ == self@,
    {
        let mut out: Vec<IrFunction> = Vec::new();
        let mut i: usize = 0;
        while i < self.functions.len()
            invariant
                i <= self.functions.len(),
                out@.len() == i,
                forall|j: int| 0 <= j < i ==> (#[trigger] out@[j])@ == self.functions@[j]@,
            decreases self.functions.len() - i,
        {
            out.push(self.functions[i].copy());
            i += 1;
        }
        let r = IrProgram { functions: out };
        assert(r@ =~= self@);
        r
    }
}

impl Clone for IrExpr {
    fn clone(&self) -> (r: IrExpr)
        ensures
            r@ == self@,
    {
        self.copy()
    }
}

impl Clone for IrProgram {
    fn clone(&self) -> (r: IrProgram)
        ensures
            r@ == self@,
    {
        self.copy()
    }
}

} // verus!
