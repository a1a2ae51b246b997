//! Retain/release insertion.
//!
//! Rewrites an expression so that it evaluates to an owned (+1) reference, with
//! every temporary it creates internally released within it.

use vstd::prelude::*;

use crate::ir::{
    arm_nodes, node_ty, nodes, param_binds, ArmNode, Bind, IrArm, IrExpr, IrParam, Node,
};
use crate::ir_walk::{preorder, refs, walk};
use crate::rc::rename::{advance, next_count};
use crate::strings::{decimal, push_decimal, same};
use crate::types::{heap, is_heap, tys, Ty, Type};

verus! {

/// A literal.
pub open spec fn is_literal(e: Node) -> bool {
    match e {
        Node::Int(_) | Node::Float(_) | Node::Bool(_) | Node::Char(_) | Node::Unit
        | Node::String(_) => true,
        _ => false,
    }
}

/// A literal or variable read: safe to evaluate later than written order.
/// (`retain` on a read commutes with everything except a release of the same
/// object, and releases always come after the consuming node.)
pub open spec fn is_reorder_safe(e: Node) -> bool {
    is_literal(e) || e is Var
}

/// Whether the node itself can unwind: raise on the error channel or return
/// `None` early.
pub open spec fn unwinds_here(e: Node) -> bool {
    match e {
        Node::Throw { .. } => true,
        Node::Question { .. } => true,
        Node::Call { callee, .. } => match node_ty(*callee) {
            Ty::Function(sig) => sig.throws is Some,
            _ => false,
        },
        Node::Platform { throws, .. } => throws is Some,
        _ => false,
    }
}

/// Whether evaluating `e` can unwind, skipping downstream releases.
/// Conservative: a contained `try` that catches everything, or a lambda literal
/// whose body throws, still count.
#[verifier::opaque]
pub open spec fn can_unwind(e: Node) -> bool {
    exists|i: int| 0 <= i < preorder(e).len() && unwinds_here(#[trigger] preorder(e)[i])
}

/// Whether `expr` is a literal.
pub fn literal(expr: &IrExpr) -> (r: bool)
    ensures
        r == is_literal(expr@),
{
    matches!(
        expr,
        IrExpr::Int(_)
            | IrExpr::Float(_)
            | IrExpr::Bool(_)
            | IrExpr::Char(_)
            | IrExpr::Unit
            | IrExpr::String(_)
    )
}

/// Whether `expr` is a literal or a variable read.
pub fn reorder_safe(expr: &IrExpr) -> (r: bool)
    ensures
        r == is_reorder_safe(expr@),
{
    matches!(
        expr,
        IrExpr::Int(_)
            | IrExpr::Float(_)
            | IrExpr::Bool(_)
            | IrExpr::Char(_)
            | IrExpr::Unit
            | IrExpr::String(_)
            | IrExpr::Var { .. }
    )
}

fn unwinds(expr: &IrExpr) -> (r: bool)
    ensures
        r == unwinds_here(expr@),
{
    match expr {
        IrExpr::Throw { .. } => true,
        IrExpr::Question { .. } => true,
        IrExpr::Call { callee, .. } => {
            let ty = callee.ty();
            match &ty {
                Type::Function(sig) => {
                    assert(ty@ == Ty::Function(sig@));
                    sig.throws.is_some()
                },
                _ => false,
            }
        },
        IrExpr::Platform { throws, .. } => throws.is_some(),
        _ => false,
    }
}

/// Whether evaluating `expr` can unwind.
pub fn may_throw(expr: &IrExpr) -> (r: bool)
    ensures
        r == can_unwind(expr@),
{
    proof {
        reveal(can_unwind);
    }
    let all = walk(expr);
    let mut i: usize = 0;
    while i < all.len()
        invariant
            i <= all.len(),
            refs(all@) == preorder(expr@),
            forall|j: int| 0 <= j < i ==> !unwinds_here(#[trigger] preorder(expr@)[j]),
        decreases all.len() - i,
    {
        reveal(can_unwind);
        let here = unwinds(all[i]);
        assert(preorder(expr@)[i as int] == all@[i as int]@);
        if here {
            return true;
        }
        i += 1;
    }
    false
}

/// The operands of a node that evaluates a list of operands before it acts.
pub open spec fn operands_of(e: Node) -> Seq<Node> {
    match e {
        Node::Call { args, .. } => args,
        Node::Intrinsic { args, .. } => args,
        Node::Platform { args, .. } => args,
        Node::Array { elems, .. } => elems,
        Node::EnumValue { payload, .. } => payload,
        Node::RecordValue { fields, .. } => fields,
        Node::Binary { left, right, .. } => seq![*left, *right],
        Node::Concat { left, right } => seq![*left, *right],
        Node::FieldAccess { target, .. } => seq![*target],
        Node::CharFromCode(value) => seq![*value],
        Node::StringFromChar(value) => seq![*value],
        _ => Seq::empty(),
    }
}

/// The same node over other operands.
pub open spec fn with_operands(e: Node, ops: Seq<Node>) -> Node {
    match e {
        Node::Call { callee, args, ret } => Node::Call { callee, args: ops, ret },
        Node::Intrinsic { name, args, ret } => Node::Intrinsic { name, args: ops, ret },
        Node::Platform { name, args, ret, throws } => Node::Platform {
            name,
            args: ops,
            ret,
            throws,
        },
        Node::Array { elem_ty, elems } => Node::Array { elem_ty, elems: ops },
        Node::EnumValue { ty, variant, tag, payload } => Node::EnumValue {
            ty,
            variant,
            tag,
            payload: ops,
        },
        Node::RecordValue { ty, fields } => Node::RecordValue { ty, fields: ops },
        Node::Binary { op, ty, left, right } => Node::Binary {
            op,
            ty,
            left: Box::new(ops[0]),
            right: Box::new(ops[1]),
        },
        Node::Concat { left, right } => Node::Concat {
            left: Box::new(ops[0]),
            right: Box::new(ops[1]),
        },
        Node::FieldAccess { target, index, field_ty } => Node::FieldAccess {
            target: Box::new(ops[0]),
            index,
            field_ty,
        },
        Node::CharFromCode(value) => Node::CharFromCode(Box::new(ops[0])),
        Node::StringFromChar(value) => Node::StringFromChar(Box::new(ops[0])),
        _ => e,
    }
}

/// Whether the node takes ownership of its operand `i`: call arguments and
/// constructor fields are owned, and so is the element that `array_push` stores
/// into the fresh array. The other operands are only read.
pub open spec fn takes_ownership(e: Node, i: int) -> bool {
    match e {
        Node::Call { .. } => true,
        Node::Array { .. } => true,
        Node::EnumValue { .. } => true,
        Node::RecordValue { .. } => true,
        Node::Intrinsic { name, .. } => name == "array_push"@ && i == 1,
        _ => false,
    }
}

/// The name of the temporary with number `n`.
pub open spec fn temp_name(n: u64) -> Seq<char> {
    "$rc"@ + decimal(n as nat)
}

/// An operand hoisted into a `let` above its consumer. `release` marks a
/// borrowed temporary (released after the consumer); an owned one transfers.
#[verifier::ext_equal]
pub struct Hoist {
    pub name: Seq<char>,
    pub ty: Ty,
    pub value: Node,
    pub release: bool,
}

/// A rewritten operand list: the next temporary, the hoisted operands and what
/// stands in their places.
#[verifier::ext_equal]
pub struct Operands {
    pub next: u64,
    pub hoisted: Seq<Hoist>,
    pub ops: Seq<Node>,
}

/// A rewritten expression, with the next temporary.
pub struct Rewritten<T> {
    pub next: u64,
    pub to: T,
}

/// Whether operand `i` is read in place but owns what it evaluates to, so that
/// it needs a temporary that is released after the node.
pub open spec fn needs_release(e: Node, i: int) -> bool {
    let arg = operands_of(e)[i];
    !takes_ownership(e, i) && heap(node_ty(arg)) && !(arg is Var || arg is String)
}

/// Whether a later operand is hoisted above the node.
#[verifier::opaque]
pub open spec fn hoists_later(e: Node, i: int) -> bool {
    exists|j: int| i < j < operands_of(e).len() && #[trigger] needs_release(e, j)
}

/// Whether some operand of the node can unwind.
#[verifier::opaque]
pub open spec fn operands_unwind(e: Node) -> bool {
    exists|j: int| 0 <= j < operands_of(e).len() && can_unwind(#[trigger] operands_of(e)[j])
}

/// A rewritten operand: the next temporary, the binding it is hoisted into, if
/// it is hoisted, and what stands in its place.
#[verifier::ext_equal]
pub struct Operand {
    pub next: u64,
    pub hoist: Option<Hoist>,
    pub op: Node,
}

/// A rewritten value bound to the temporary with number `n`.
pub open spec fn hoisted_operand(n: u64, value: Node, ty: Ty, release: bool) -> Operand {
    let name = temp_name(n);
    Operand {
        next: next_count(n),
        hoist: Some(Hoist { name, ty, value, release }),
        op: Node::Var { name, ty },
    }
}

/// Rewrites operand `i` of a node. Borrowed heap operands that are not atoms
/// are hoisted (and released after the node); anything effectful that would
/// otherwise evaluate after a hoisted operand is hoisted too, without a release.
///
/// If any operand may unwind, the whole list goes through temporaries, all but
/// literals and variable reads: when an unwind happens, every owned value in
/// flight sits in a local that cleanup can release.
pub open spec fn rewrite_operand(n: u64, e: Node, i: int) -> Operand
    decreases e, 0nat,
    when 0 <= i < operands_of(e).len()
{
    let arg = operands_of(e)[i];
    let ty = node_ty(arg);
    if needs_release(e, i) {
        let v = own(n, arg);
        hoisted_operand(v.next, v.to, ty, true)
    } else {
        let kept = if takes_ownership(e, i) || !heap(ty) {
            own(n, arg)
        } else {
            Rewritten { next: n, to: arg }
        };
        if !is_reorder_safe(arg) && (operands_unwind(e) || hoists_later(e, i)) {
            hoisted_operand(kept.next, kept.to, ty, false)
        } else {
            Operand { next: kept.next, hoist: None, op: kept.to }
        }
    }
}

/// `hoisted` with one more operand's binding, if it has one.
pub open spec fn add_hoist(hoisted: Seq<Hoist>, h: Option<Hoist>) -> Seq<Hoist> {
    match h {
        Some(h) => hoisted.push(h),
        None => hoisted,
    }
}

/// Rewrites the first `k` operands of a node, preserving left-to-right
/// evaluation.
pub open spec fn rewrite_operands(n: u64, e: Node, k: nat) -> Operands
    decreases e, k + 1,
{
    if k == 0 || k > operands_of(e).len() {
        Operands { next: n, hoisted: Seq::empty(), ops: Seq::empty() }
    } else {
        let init = rewrite_operands(n, e, (k - 1) as nat);
        let o = rewrite_operand(init.next, e, k - 1);
        Operands {
            next: o.next,
            hoisted: add_hoist(init.hoisted, o.hoist),
            ops: init.ops.push(o.op),
        }
    }
}

/// The bindings of `hoisted` around `body`, the first outermost.
#[verifier::opaque]
pub open spec fn bind_all(hoisted: Seq<Hoist>, body: Node) -> Node
    decreases hoisted.len(),
{
    if hoisted.len() == 0 {
        body
    } else {
        let h = hoisted.last();
        bind_all(
            hoisted.drop_last(),
            Node::Let {
                name: h.name,
                value_ty: h.ty,
                value: Box::new(h.value),
                next: Box::new(body),
            },
        )
    }
}

/// The releases of the borrowed temporaries of `hoisted` above `body`, the
/// first innermost.
#[verifier::opaque]
pub open spec fn release_all(hoisted: Seq<Hoist>, body: Node) -> Node
    decreases hoisted.len(),
{
    if hoisted.len() == 0 {
        body
    } else {
        let inner = release_all(hoisted.drop_last(), body);
        let h = hoisted.last();
        if h.release {
            Node::Release { name: h.name, ty: h.ty, next: Box::new(inner) }
        } else {
            inner
        }
    }
}

/// Whether some hoisted operand is released after the node.
pub open spec fn any_release(hoisted: Seq<Hoist>) -> bool {
    exists|i: int| 0 <= i < hoisted.len() && (#[trigger] hoisted[i]).release
}

/// Wraps `node` with the hoisted operand bindings and, after it, the releases
/// of the borrowed ones.
#[verifier::opaque]
pub open spec fn wrap_node(n: u64, hoisted: Seq<Hoist>, node: Node) -> Rewritten<Node> {
    if any_release(hoisted) {
        let name = temp_name(n);
        let ty = node_ty(node);
        Rewritten {
            next: next_count(n),
            to: bind_all(
                hoisted,
                Node::Let {
                    name,
                    value_ty: ty,
                    value: Box::new(node),
                    next: Box::new(release_all(hoisted, Node::Var { name, ty })),
                },
            ),
        }
    } else {
        Rewritten { next: n, to: bind_all(hoisted, node) }
    }
}

/// Evaluates the tail value first, then releases:
/// `let $rc = leaf; release name; $rc`.
#[verifier::opaque]
pub open spec fn release_after(n: u64, leaf: Node, name: Seq<char>, ty: Ty) -> Rewritten<Node> {
    let result = temp_name(n);
    let leaf_ty = node_ty(leaf);
    Rewritten {
        next: next_count(n),
        to: Node::Let {
            name: result,
            value_ty: leaf_ty,
            value: Box::new(leaf),
            next: Box::new(
                Node::Release {
                    name,
                    ty,
                    next: Box::new(Node::Var { name: result, ty: leaf_ty }),
                },
            ),
        },
    }
}

/// Whether a scope only hands on what is bound to `bound`: after some releases, it
/// reads it. So a `try` that ends a scope stays in tail position once its value
/// is bound and the scope's bindings are released after it.
pub open spec fn hands_on(scope: Node, bound: Seq<char>) -> bool
    decreases scope,
{
    match scope {
        Node::Release { next, .. } => hands_on(*next, bound),
        Node::Var { name, .. } => name == bound,
        _ => false,
    }
}

/// Inserts `release name` right before the jumps out of `e` (a tail self call,
/// a throw) and leaves the value tails untouched. Used inside the catch arms of
/// a `try`, whose value paths are released after the `try` as a whole.
#[verifier::opaque]
pub open spec fn release_jumps(e: Node, name: Seq<char>, ty: Ty) -> Node
    decreases e,
{
    match e {
        Node::Let { name: n, value_ty, value, next } => Node::Let {
            name: n,
            value_ty,
            value: Box::new(release_value_jumps(*value, hands_on(*next, n), name, ty)),
            next: Box::new(release_jumps(*next, name, ty)),
        },
        Node::Release { name: n, ty: t, next } => Node::Release {
            name: n,
            ty: t,
            next: Box::new(release_jumps(*next, name, ty)),
        },
        Node::If { cond, then, els, ty: node_ty } => Node::If {
            cond,
            then: Box::new(release_jumps(*then, name, ty)),
            els: Box::new(release_jumps(*els, name, ty)),
            ty: node_ty,
        },
        Node::Match { scrutinee, arms, ty: node_ty } => Node::Match {
            scrutinee,
            arms: release_arm_jumps(arms, name, ty),
            ty: node_ty,
        },
        Node::Try { body, arms, ty: node_ty, err_name } => Node::Try {
            body,
            arms: release_arm_jumps(arms, name, ty),
            ty: node_ty,
            err_name,
        },
        Node::TailSelfCall { .. } => Node::Release { name, ty, next: Box::new(e) },
        Node::Throw { .. } => Node::Release { name, ty, next: Box::new(e) },
        _ => e,
    }
}

/// [`release_jumps`] on the catch arms of a `try` whose value is handed on.
pub open spec fn release_value_jumps(value: Node, handed_on: bool, name: Seq<char>, ty: Ty) -> Node
    decreases value,
{
    match value {
        Node::Try { body, arms, ty: node_ty, err_name } => if handed_on {
            Node::Try { body, arms: release_arm_jumps(arms, name, ty), ty: node_ty, err_name }
        } else {
            value
        },
        _ => value,
    }
}

/// [`release_jumps`] on the body of an arm.
#[verifier::opaque]
pub open spec fn release_arm_jump(arm: ArmNode, name: Seq<char>, ty: Ty) -> ArmNode
    decreases arm,
{
    ArmNode {
        pattern: arm.pattern,
        guard: arm.guard,
        body: Box::new(release_jumps(*arm.body, name, ty)),
    }
}

/// [`release_jumps`] on the body of every arm.
#[verifier::opaque]
pub open spec fn release_arm_jumps(arms: Seq<ArmNode>, name: Seq<char>, ty: Ty) -> Seq<ArmNode>
    decreases arms,
{
    if arms.len() == 0 {
        Seq::empty()
    } else {
        release_arm_jumps(arms.drop_last(), name, ty).push(release_arm_jump(arms.last(), name, ty))
    }
}

/// Inserts `release name` at every tail of `e`: the points where `e` produces
/// its value or jumps out of the scope.
#[verifier::opaque]
pub open spec fn release_tails(n: u64, e: Node, name: Seq<char>, ty: Ty) -> Rewritten<Node>
    decreases e,
{
    match e {
        Node::Let { name: x, value_ty, value, next } => {
            let v = release_value_jumps(*value, hands_on(*next, x), name, ty);
            let r = release_tails(n, *next, name, ty);
            Rewritten {
                next: r.next,
                to: Node::Let {
                    name: x,
                    value_ty,
                    value: Box::new(v),
                    next: Box::new(r.to),
                },
            }
        },
        Node::Release { name: x, ty: t, next } => {
            let r = release_tails(n, *next, name, ty);
            Rewritten { next: r.next, to: Node::Release { name: x, ty: t, next: Box::new(r.to) } }
        },
        Node::If { cond, then, els, ty: node_ty } => {
            let t = release_tails(n, *then, name, ty);
            let f = release_tails(t.next, *els, name, ty);
            Rewritten {
                next: f.next,
                to: Node::If {
                    cond,
                    then: Box::new(t.to),
                    els: Box::new(f.to),
                    ty: node_ty,
                },
            }
        },
        Node::Match { scrutinee, arms, ty: node_ty } => {
            let a = release_arm_tails(n, arms, name, ty);
            Rewritten { next: a.next, to: Node::Match { scrutinee, arms: a.to, ty: node_ty } }
        },
        // A catch arm is a tail position: a jump out of it must carry the
        // release. The value paths flow out of the whole `try` and hit the
        // single release after it, so each path releases exactly once.
        Node::Try { body, arms, ty: node_ty, err_name } => release_after(
            n,
            Node::Try { body, arms: release_arm_jumps(arms, name, ty), ty: node_ty, err_name },
            name,
            ty,
        ),
        // A jump out of the scope: release right before it (its operands are
        // already in temporaries).
        Node::TailSelfCall { .. } => Rewritten {
            next: n,
            to: Node::Release { name, ty, next: Box::new(e) },
        },
        Node::Throw { .. } => Rewritten {
            next: n,
            to: Node::Release { name, ty, next: Box::new(e) },
        },
        // A literal or variable read: the release cannot invalidate it.
        _ => if is_reorder_safe(e) {
            Rewritten { next: n, to: Node::Release { name, ty, next: Box::new(e) } }
        } else {
            release_after(n, e, name, ty)
        },
    }
}

/// [`release_tails`] on the body of an arm.
#[verifier::opaque]
pub open spec fn release_arm_tail(n: u64, arm: ArmNode, name: Seq<char>, ty: Ty) -> Rewritten<
    ArmNode,
>
    decreases arm,
{
    let b = release_tails(n, *arm.body, name, ty);
    Rewritten {
        next: b.next,
        to: ArmNode { pattern: arm.pattern, guard: arm.guard, body: Box::new(b.to) },
    }
}

/// [`release_tails`] on the body of every arm, top to bottom.
#[verifier::opaque]
pub open spec fn release_arm_tails(n: u64, arms: Seq<ArmNode>, name: Seq<char>, ty: Ty) -> Rewritten<
    Seq<ArmNode>,
>
    decreases arms,
{
    if arms.len() == 0 {
        Rewritten { next: n, to: Seq::empty() }
    } else {
        let init = release_arm_tails(n, arms.drop_last(), name, ty);
        let last = release_arm_tail(init.next, arms.last(), name, ty);
        Rewritten { next: last.next, to: init.to.push(last.to) }
    }
}

/// Releases every heap-typed parameter at the tails of `body`.
#[verifier::opaque]
pub open spec fn release_params(n: u64, params: Seq<Bind>, body: Node) -> Rewritten<Node>
    decreases params.len(),
{
    if params.len() == 0 {
        Rewritten { next: n, to: body }
    } else {
        let init = release_params(n, params.drop_last(), body);
        let p = params.last();
        if heap(p.ty) {
            release_tails(init.next, init.to, p.name, p.ty)
        } else {
            init
        }
    }
}

/// Whether a tail-call argument stays inline: literals and reads of variables
/// that are not heap values. Every other argument is evaluated into a
/// temporary before the releases that precede the jump.
pub open spec fn stays_inline(arg: Node) -> bool {
    is_literal(arg) || (arg is Var && !heap(node_ty(arg)))
}

/// An argument of a tail self call, in a temporary unless it stays inline.
pub open spec fn atomize_one(n: u64, arg: Node) -> Operand
    decreases arg, operands_of(arg).len() + 4,
{
    if stays_inline(arg) {
        Operand { next: n, hoist: None, op: arg }
    } else {
        let v = own(n, arg);
        hoisted_operand(v.next, v.to, node_ty(arg), false)
    }
}

/// The arguments of a tail self call, left to right.
pub open spec fn atomize(n: u64, args: Seq<Node>) -> Operands
    decreases args, 0nat,
{
    if args.len() == 0 {
        Operands { next: n, hoisted: Seq::empty(), ops: Seq::empty() }
    } else {
        let init = atomize(n, args.drop_last());
        let o = atomize_one(init.next, args.last());
        Operands {
            next: o.next,
            hoisted: add_hoist(init.hoisted, o.hoist),
            ops: init.ops.push(o.op),
        }
    }
}

/// An arm of a `match`: its guard and its body owned.
pub open spec fn own_match_arm(n: u64, arm: ArmNode) -> Rewritten<ArmNode>
    decreases arm, 0nat,
{
    match arm.guard {
        Some(guard) => {
            let g = own(n, *guard);
            let b = own(g.next, *arm.body);
            Rewritten {
                next: b.next,
                to: ArmNode {
                    pattern: arm.pattern,
                    guard: Some(Box::new(g.to)),
                    body: Box::new(b.to),
                },
            }
        },
        None => {
            let b = own(n, *arm.body);
            Rewritten {
                next: b.next,
                to: ArmNode { pattern: arm.pattern, guard: None, body: Box::new(b.to) },
            }
        },
    }
}

/// The arms of a `match`, top to bottom.
pub open spec fn own_match_arms(n: u64, arms: Seq<ArmNode>) -> Rewritten<Seq<ArmNode>>
    decreases arms, 0nat,
{
    if arms.len() == 0 {
        Rewritten { next: n, to: Seq::empty() }
    } else {
        let init = own_match_arms(n, arms.drop_last());
        let last = own_match_arm(init.next, arms.last());
        Rewritten { next: last.next, to: init.to.push(last.to) }
    }
}

/// The informational type of a caught error value; runtime dispatch goes
/// through the value's own header.
pub open spec fn caught_ty() -> Ty {
    Ty::Enum("$caught"@, Seq::empty())
}

/// An arm of a `catch`: its body and guard owned, with the caught error `err`
/// released on every path out of it.
pub open spec fn own_catch_arm(n: u64, arm: ArmNode, err: Seq<char>) -> Rewritten<ArmNode>
    decreases arm, 0nat,
{
    let b = own(n, *arm.body);
    match arm.guard {
        Some(guard) => {
            let g = own(b.next, *guard);
            let t = release_tails(g.next, b.to, err, caught_ty());
            Rewritten {
                next: t.next,
                to: ArmNode {
                    pattern: arm.pattern,
                    guard: Some(Box::new(g.to)),
                    body: Box::new(t.to),
                },
            }
        },
        None => {
            let t = release_tails(b.next, b.to, err, caught_ty());
            Rewritten {
                next: t.next,
                to: ArmNode { pattern: arm.pattern, guard: None, body: Box::new(t.to) },
            }
        },
    }
}

/// The arms of a `catch`, top to bottom.
pub open spec fn own_catch_arms(n: u64, arms: Seq<ArmNode>, err: Seq<char>) -> Rewritten<
    Seq<ArmNode>,
>
    decreases arms, 0nat,
{
    if arms.len() == 0 {
        Rewritten { next: n, to: Seq::empty() }
    } else {
        let init = own_catch_arms(n, arms.drop_last(), err);
        let last = own_catch_arm(init.next, arms.last(), err);
        Rewritten { next: last.next, to: init.to.push(last.to) }
    }
}

/// An owned call.
pub open spec fn own_call(n: u64, e: Node) -> Rewritten<Node>
    decreases e, operands_of(e).len() + 2,
{
    match e {
        Node::Call { callee, args, ret } => {
            let r = rewrite_operands(n, e, args.len());
            match *callee {
                // A direct target or a borrowed closure binding.
                Node::FunctionRef { .. } => wrap_node(
                    r.next,
                    r.hoisted,
                    Node::Call { callee, args: r.ops, ret },
                ),
                Node::Var { .. } => wrap_node(
                    r.next,
                    r.hoisted,
                    Node::Call { callee, args: r.ops, ret },
                ),
                // Any other callee expression: own it for the call, then
                // release it. It evaluates before the arguments.
                _ => {
                    let ty = node_ty(*callee);
                    let v = own(r.next, *callee);
                    let name = temp_name(v.next);
                    wrap_node(
                        next_count(v.next),
                        seq![Hoist { name, ty, value: v.to, release: true }] + r.hoisted,
                        Node::Call { callee: Box::new(Node::Var { name, ty }), args: r.ops, ret },
                    )
                },
            }
        },
        _ => Rewritten { next: n, to: e },
    }
}

/// An owned `match`.
pub open spec fn own_match(n: u64, e: Node) -> Rewritten<Node>
    decreases e, 0nat,
{
    match e {
        Node::Match { scrutinee, arms, ty } => {
            let a = own_match_arms(n, arms);
            match *scrutinee {
                // A borrowed binding: pattern bindings borrow through it.
                Node::Var { .. } => Rewritten {
                    next: a.next,
                    to: Node::Match { scrutinee, arms: a.to, ty },
                },
                // Own the scrutinee for the match, release it in each arm.
                _ => {
                    let sty = node_ty(*scrutinee);
                    let v = own(a.next, *scrutinee);
                    let name = temp_name(v.next);
                    let t = release_arm_tails(next_count(v.next), a.to, name, sty);
                    Rewritten {
                        next: t.next,
                        to: Node::Let {
                            name,
                            value_ty: sty,
                            value: Box::new(v.to),
                            next: Box::new(
                                Node::Match {
                                    scrutinee: Box::new(Node::Var { name, ty: sty }),
                                    arms: t.to,
                                    ty,
                                },
                            ),
                        },
                    }
                },
            }
        },
        _ => Rewritten { next: n, to: e },
    }
}

/// Rewrites `e` so that it evaluates to an owned (+1) reference (or a plain
/// value for non-heap types), with every temporary it creates released within
/// it. `n` is the number of the next temporary.
pub open spec fn own(n: u64, e: Node) -> Rewritten<Node>
    decreases e, operands_of(e).len() + 3,
{
    match e {
        Node::Var { name, ty } => Rewritten {
            next: n,
            to: if heap(ty) {
                Node::Retain { value: Box::new(e) }
            } else {
                e
            },
        },
        Node::Let { name, value_ty, value, next } => {
            let v = own(n, *value);
            let b = own(v.next, *next);
            let t = if heap(value_ty) {
                release_tails(b.next, b.to, name, value_ty)
            } else {
                b
            };
            Rewritten {
                next: t.next,
                to: Node::Let { name, value_ty, value: Box::new(v.to), next: Box::new(t.to) },
            }
        },
        Node::Call { .. } => own_call(n, e),
        // Releases are inserted directly above the jump, so every argument
        // that reads the heap is already evaluated into a temporary by then.
        Node::TailSelfCall { args, ty } => {
            let r = atomize(n, args);
            Rewritten {
                next: r.next,
                to: bind_all(r.hoisted, Node::TailSelfCall { args: r.ops, ty }),
            }
        },
        Node::Intrinsic { .. } | Node::Platform { .. } | Node::Binary { .. } | Node::Concat { .. }
        | Node::Array { .. } | Node::EnumValue { .. } | Node::RecordValue { .. }
        | Node::FieldAccess { .. } | Node::CharFromCode(_) | Node::StringFromChar(_) => {
            let r = rewrite_operands(n, e, operands_of(e).len());
            wrap_node(r.next, r.hoisted, with_operands(e, r.ops))
        },
        Node::If { cond, then, els, ty } => {
            let c = own(n, *cond);
            let t = own(c.next, *then);
            let f = own(t.next, *els);
            Rewritten {
                next: f.next,
                to: Node::If {
                    cond: Box::new(c.to),
                    then: Box::new(t.to),
                    els: Box::new(f.to),
                    ty,
                },
            }
        },
        Node::Match { .. } => own_match(n, e),
        // The caught error value arrives owned (+1, transferred from the
        // raise). It is bound under a fresh name and released on every path
        // out of whichever arm runs.
        Node::Try { body, arms, ty, err_name } => {
            let err = temp_name(n);
            let a = own_catch_arms(next_count(n), arms, err);
            let b = own(a.next, *body);
            Rewritten {
                next: b.next,
                to: Node::Try { body: Box::new(b.to), arms: a.to, ty, err_name: Some(err) },
            }
        },
        Node::Question { value, mode, ty } => {
            let v = own(n, *value);
            Rewritten { next: v.next, to: Node::Question { value: Box::new(v.to), mode, ty } }
        },
        // The error goes through a temporary, so that releases can stand
        // between its evaluation and the raise.
        Node::Throw { value } => {
            let v = own(n, *value);
            if is_literal(v.to) {
                Rewritten { next: v.next, to: Node::Throw { value: Box::new(v.to) } }
            } else {
                let ty = node_ty(v.to);
                let name = temp_name(v.next);
                Rewritten {
                    next: next_count(v.next),
                    to: Node::Let {
                        name,
                        value_ty: ty,
                        value: Box::new(v.to),
                        next: Box::new(
                            Node::Throw { value: Box::new(Node::Var { name, ty }) },
                        ),
                    },
                }
            }
        },
        // The trap ends the instance; a borrowed read suffices.
        Node::Panic { message } => match *message {
            Node::Var { .. } => Rewritten { next: n, to: e },
            _ => {
                let m = own(n, *message);
                Rewritten { next: m.next, to: Node::Panic { message: Box::new(m.to) } }
            },
        },
        // A lambda is its own function: its heap parameters are owned by its
        // frame. Captures are borrows of the environment.
        Node::Fn { params, ret, throws, effects, captures, body } => {
            let o = own(n, *body);
            let b = release_params(o.next, params, o.to);
            Rewritten {
                next: b.next,
                to: Node::Fn { params, ret, throws, effects, captures, body: Box::new(b.to) },
            }
        },
        Node::Int(_) | Node::Float(_) | Node::Bool(_) | Node::Char(_) | Node::Unit
        | Node::String(_) | Node::FunctionRef { .. } | Node::Retain { .. }
        | Node::Release { .. } => Rewritten { next: n, to: e },
    }
}

/// A function (or lambda) body: the owned tail value, with every heap-typed
/// parameter released on every path out.
pub open spec fn own_body(n: u64, params: Seq<Bind>, body: Node) -> Rewritten<Node> {
    let o = own(n, body);
    release_params(o.next, params, o.to)
}

/// An operand hoisted into a `let` above its consumer.
pub struct Hoisted {
    pub name: String,
    pub ty: Type,
    pub value: IrExpr,
    pub release: bool,
}

impl Hoisted {
    pub open spec fn view(&self) -> Hoist {
        Hoist {
            name: self.name@,
            ty: self.ty@,
            value: self.value@,
            release: self.release,
        }
    }
}

/// What a list of hoisted operands says.
pub open spec fn hoists(s: Seq<Hoisted>) -> Seq<Hoist> {
    s.map_values(|h: Hoisted| h@)
}

/// What an optional hoisted operand says.
pub open spec fn opt_hoist(h: Option<Hoisted>) -> Option<Hoist> {
    match h {
        Some(h) => Some(h@),
        None => None,
    }
}

fn push_hoist(hoisted: &mut Vec<Hoisted>, h: Option<Hoisted>)
    ensures
        hoists(final(hoisted)@) == add_hoist(hoists(old(hoisted)@), opt_hoist(h)),
{
    if let Some(h) = h {
        hoisted.push(h);
        assert(hoists(hoisted@) =~= hoists(old(hoisted)@).push(h@));
    }
}

/// Which operands a consumer takes ownership of.
#[derive(Clone, Copy)]
pub enum Mode {
    /// All of them: a bare variable is retained.
    Owned,
    /// None: a variable stays bare; any other heap operand is bound to a
    /// temporary and released after the consumer.
    Borrowed,
    /// The second one only.
    Second,
}

/// Whether the mode owns operand `i`.
pub open spec fn owns(mode: Mode, i: int) -> bool {
    match mode {
        Mode::Owned => true,
        Mode::Borrowed => false,
        Mode::Second => i == 1,
    }
}

/// The insertion pass: it numbers the temporaries it makes.
pub struct Cx {
    pub counter: u64,
}

/// A one-element list of expressions.
fn one(e: IrExpr) -> (r: Vec<IrExpr>)
    ensures
        r@ == seq![e],
        nodes(r@) == seq![e@],
{
    let mut v: Vec<IrExpr> = Vec::new();
    v.push(e);
    assert(v@ =~= seq![e]);
    assert(nodes(v@) =~= seq![e@]);
    v
}

/// A two-element list of expressions.
fn two(a: IrExpr, b: IrExpr) -> (r: Vec<IrExpr>)
    ensures
        r@ == seq![a, b],
        nodes(r@) == seq![a@, b@],
{
    let mut v: Vec<IrExpr> = Vec::new();
    v.push(a);
    v.push(b);
    assert(v@ =~= seq![a, b]);
    assert(nodes(v@) =~= seq![a@, b@]);
    v
}

impl Cx {
    /// A pass that has made no temporary.
    pub fn new() -> (r: Cx)
        ensures
            r.counter == 0,
    {
        Cx { counter: 0 }
    }

    /// The name of a new temporary.
    pub fn fresh(&mut self) -> (r: String)
        ensures
            r@ == temp_name(old(self).counter),
            final(self).counter == next_count(old(self).counter),
    {
        let n: u64 = self.counter;
        self.counter = advance(n);
        let mut name = String::new();
        name.push_str("$rc");
        push_decimal(&mut name, n);
        assert(name@ =~= temp_name(n));
        name
    }

    /// A function (or lambda) body: the owned tail value, with every heap-typed
    /// parameter released on every path out.
    pub fn fn_body(&mut self, params: &Vec<IrParam>, body: IrExpr) -> (r: IrExpr)
        ensures
            r@ == own_body(old(self).counter, param_binds(params@), body@).to,
            final(self).counter == own_body(
                old(self).counter,
                param_binds(params@),
                body@,
            ).next,
        decreases body, 3nat,
    {
        proof {
            reveal(release_params);
        }
        let ghost all = param_binds(params@);
        let mut out = self.owned(body);
        let ghost o = out@;
        let ghost n0 = self.counter;
        let mut i: usize = 0;
        assert(all.take(0) =~= Seq::<Bind>::empty());
        while i < params.len()
            invariant
                i <= params.len(),
                all == param_binds(params@),
                out@ == release_params(n0, all.take(i as int), o).to,
                self.counter == release_params(n0, all.take(i as int), o).next,
            decreases params.len() - i,
        {
            proof {
                reveal(release_params);
            }
            proof {
                assert(all.take(i + 1).drop_last() =~= all.take(i as int));
                assert(all.take(i + 1).last() == params@[i as int]@);
            }
            if is_heap(&params[i].ty) {
                out = self.release_at_tails(out, &params[i].name, &params[i].ty);
            }
            i += 1;
        }
        assert(all.take(all.len() as int) =~= all);
        out
    }

    /// Rewrites `e` so that it evaluates to an owned reference.
    pub fn owned(&mut self, e: IrExpr) -> (r: IrExpr)
        ensures
            r@ == own(old(self).counter, e@).to,
            final(self).counter == own(old(self).counter, e@).next,
        decreases e, 2nat,
    {
        let ghost whole = e;
        if matches!(
            e,
            IrExpr::Intrinsic { .. }
                | IrExpr::Platform { .. }
                | IrExpr::Array { .. }
                | IrExpr::EnumValue { .. }
                | IrExpr::RecordValue { .. }
        ) {
            self.listed(e)
        } else if matches!(
            e,
            IrExpr::Binary { .. }
                | IrExpr::Concat { .. }
                | IrExpr::FieldAccess { .. }
                | IrExpr::CharFromCode(_)
                | IrExpr::StringFromChar(_)
        ) {
            self.fixed(e)
        } else if matches!(
            e,
            IrExpr::If { .. }
                | IrExpr::Try { .. }
                | IrExpr::Question { .. }
                | IrExpr::Throw { .. }
                | IrExpr::Panic { .. }
        ) {
            self.control(e)
        } else {
            match e {
                IrExpr::Var { name, ty } => {
                    if is_heap(&ty) {
                        IrExpr::retain(IrExpr::var(name, ty))
                    } else {
                        IrExpr::Var { name, ty }
                    }
                },
                IrExpr::Let { name, value_ty, value, next } => {
                    let value = self.owned(*value);
                    let next = self.owned(*next);
                    let next = if is_heap(&value_ty) {
                        self.release_at_tails(next, &name, &value_ty)
                    } else {
                        next
                    };
                    IrExpr::let_in(name, value_ty, value, next)
                },
                IrExpr::Call { callee, args, ret } => self.call(*callee, args, ret, Ghost(whole)),
                IrExpr::TailSelfCall { args, ty } => self.tail_call(args, ty),
                IrExpr::Match { scrutinee, arms, ty } => self.match_on(
                    *scrutinee,
                    arms,
                    ty,
                    Ghost(whole),
                ),
                IrExpr::Fn { params, ret, throws, effects, captures, body } => {
                    let body = self.fn_body(&params, *body);
                    IrExpr::Fn { params, ret, throws, effects, captures, body: Box::new(body) }
                },
                other => other,
            }
        }
    }

    /// An owned node over a list of operands.
    fn listed(&mut self, e: IrExpr) -> (r: IrExpr)
        requires
            e is Intrinsic || e is Platform || e is Array || e is EnumValue || e is RecordValue,
        ensures
            r@ == own(old(self).counter, e@).to,
            final(self).counter == own(old(self).counter, e@).next,
        decreases e, 1nat,
    {
        let ghost whole = e;
        let ghost node = e@;
        match e {
            IrExpr::Intrinsic { name, args, ret } => {
                let mode = if same(name.as_str(), "array_push") {
                    Mode::Second
                } else {
                    Mode::Borrowed
                };
                let (hoisted, args) = self.operands(args, mode, Ghost(node), Ghost(whole));
                self.wrap(hoisted, IrExpr::Intrinsic { name, args, ret })
            },
            IrExpr::Platform { name, args, ret, throws } => {
                let (hoisted, args) = self.operands(args, Mode::Borrowed, Ghost(node), Ghost(whole));
                self.wrap(hoisted, IrExpr::Platform { name, args, ret, throws })
            },
            IrExpr::Array { elem_ty, elems } => {
                let (hoisted, elems) = self.operands(elems, Mode::Owned, Ghost(node), Ghost(whole));
                self.wrap(hoisted, IrExpr::Array { elem_ty, elems })
            },
            IrExpr::EnumValue { ty, variant, tag, payload } => {
                let (hoisted, payload) = self.operands(
                    payload,
                    Mode::Owned,
                    Ghost(node),
                    Ghost(whole),
                );
                self.wrap(hoisted, IrExpr::EnumValue { ty, variant, tag, payload })
            },
            IrExpr::RecordValue { ty, fields } => {
                let (hoisted, fields) = self.operands(
                    fields,
                    Mode::Owned,
                    Ghost(node),
                    Ghost(whole),
                );
                self.wrap(hoisted, IrExpr::RecordValue { ty, fields })
            },
            other => other,
        }
    }

    /// An owned node over one or two operands.
    fn fixed(&mut self, e: IrExpr) -> (r: IrExpr)
        requires
            e is Binary || e is Concat || e is FieldAccess || e is CharFromCode
                || e is StringFromChar,
        ensures
            r@ == own(old(self).counter, e@).to,
            final(self).counter == own(old(self).counter, e@).next,
        decreases e, 1nat,
    {
        let ghost whole = e;
        let ghost node = e@;
        match e {
            IrExpr::Binary { op, ty, left, right } => {
                let pair = two(*left, *right);
                let (hoisted, ops) = self.operands(
                    pair,
                    Mode::Borrowed,
                    Ghost(node),
                    Ghost(whole),
                );
                let (left, right) = unpair(ops);
                self.wrap(
                    hoisted,
                    IrExpr::Binary { op, ty, left: Box::new(left), right: Box::new(right) },
                )
            },
            IrExpr::Concat { left, right } => {
                let pair = two(*left, *right);
                let (hoisted, ops) = self.operands(
                    pair,
                    Mode::Borrowed,
                    Ghost(node),
                    Ghost(whole),
                );
                let (left, right) = unpair(ops);
                self.wrap(hoisted, IrExpr::Concat { left: Box::new(left), right: Box::new(right) })
            },
            IrExpr::FieldAccess { target, index, field_ty } => {
                let single = one(*target);
                let (hoisted, ops) = self.operands(
                    single,
                    Mode::Borrowed,
                    Ghost(node),
                    Ghost(whole),
                );
                let target = unsingle(ops);
                self.wrap(
                    hoisted,
                    IrExpr::FieldAccess { target: Box::new(target), index, field_ty },
                )
            },
            IrExpr::CharFromCode(value) => {
                let single = one(*value);
                let (hoisted, ops) = self.operands(
                    single,
                    Mode::Borrowed,
                    Ghost(node),
                    Ghost(whole),
                );
                let value = unsingle(ops);
                self.wrap(hoisted, IrExpr::CharFromCode(Box::new(value)))
            },
            IrExpr::StringFromChar(value) => {
                let single = one(*value);
                let (hoisted, ops) = self.operands(
                    single,
                    Mode::Borrowed,
                    Ghost(node),
                    Ghost(whole),
                );
                let value = unsingle(ops);
                self.wrap(hoisted, IrExpr::StringFromChar(Box::new(value)))
            },
            other => other,
        }
    }

    /// An owned branch or jump.
    fn control(&mut self, e: IrExpr) -> (r: IrExpr)
        requires
            e is If || e is Try || e is Question || e is Throw || e is Panic,
        ensures
            r@ == own(old(self).counter, e@).to,
            final(self).counter == own(old(self).counter, e@).next,
        decreases e, 1nat,
    {
        let ghost node = e@;
        match e {
            IrExpr::If { cond, then, els, ty } => {
                let cond = self.owned(*cond);
                let then = self.owned(*then);
                let els = self.owned(*els);
                IrExpr::If { cond: Box::new(cond), then: Box::new(then), els: Box::new(els), ty }
            },
            IrExpr::Try { body, arms, ty, err_name: _ } => {
                let err_name = self.fresh();
                let arms = self.catch_arms(arms, &err_name);
                let body = self.owned(*body);
                IrExpr::Try { body: Box::new(body), arms, ty, err_name: Some(err_name) }
            },
            IrExpr::Question { value, mode, ty } => {
                let value = self.owned(*value);
                IrExpr::Question { value: Box::new(value), mode, ty }
            },
            IrExpr::Throw { value } => {
                let value = self.owned(*value);
                if literal(&value) {
                    IrExpr::throw(value)
                } else {
                    let ty = value.ty();
                    let name = self.fresh();
                    let read = IrExpr::var(name.clone(), ty.copy());
                    IrExpr::let_in(name, ty, value, IrExpr::throw(read))
                }
            },
            IrExpr::Panic { message } => {
                let m = *message;
                assert(node == (Node::Panic { message: Box::new(m@) }));
                let m = if matches!(m, IrExpr::Var { .. }) {
                    m
                } else {
                    self.owned(m)
                };
                IrExpr::Panic { message: Box::new(m) }
            },
            other => other,
        }
    }

    fn call(
        &mut self,
        callee: IrExpr,
        args: Vec<IrExpr>,
        ret: Type,
        Ghost(whole): Ghost<IrExpr>,
    ) -> (r: IrExpr)
        requires
            whole@ == (Node::Call { callee: Box::new(callee@), args: nodes(args@), ret: ret@ }),
            decreases_to!(whole => callee),
            forall|i: int| 0 <= i < args@.len() ==> decreases_to!(whole => #[trigger] args@[i]),
        ensures
            ({
                let o = own_call(old(self).counter, whole@);
                &&& r@ == o.to
                &&& final(self).counter == o.next
            }),
        decreases whole, 1nat,
    {
        let (hoisted, args) = self.operands(args, Mode::Owned, Ghost(whole@), Ghost(whole));
        if matches!(callee, IrExpr::FunctionRef { .. } | IrExpr::Var { .. }) {
            let node = IrExpr::call(callee, args, ret);
            self.wrap(hoisted, node)
        } else {
            let ghost first = hoists(hoisted@);
            let ty = callee.ty();
            let value = self.owned(callee);
            let name = self.fresh();
            let read = IrExpr::var(name.clone(), ty.copy());
            let node = IrExpr::call(read, args, ret);
            let mut all: Vec<Hoisted> = Vec::new();
            let mut rest = hoisted;
            all.push(Hoisted { name, ty, value, release: true });
            let ghost head = all@[0]@;
            all.append(&mut rest);
            assert(hoists(all@) =~= seq![head] + first);
            self.wrap(all, node)
        }
    }

    fn tail_call(&mut self, args: Vec<IrExpr>, ty: Type) -> (r: IrExpr)
        ensures
            ({
                let o = atomize(old(self).counter, nodes(args@));
                &&& r@ == bind_all(o.hoisted, Node::TailSelfCall { args: o.ops, ty: ty@ })
                &&& final(self).counter == o.next
            }),
        decreases args@, 0nat,
    {
        let ghost all = nodes(args@);
        let ghost items = args@;
        let ghost n0 = self.counter;
        let mut hoisted: Vec<Hoisted> = Vec::new();
        let mut out: Vec<IrExpr> = Vec::new();
        proof {
            assert(hoists(hoisted@) =~= Seq::<Hoist>::empty());
            assert(nodes(out@) =~= Seq::<Node>::empty());
            assert(all.take(0) =~= Seq::<Node>::empty());
        }
        for arg in iter: args
            invariant
                iter.seq() == items,
                all == nodes(items),
                n0 == old(self).counter,
                items == args@,
                ({
                    let o = atomize(n0, all.take(iter.index() as int));
                    &&& hoists(hoisted@) == o.hoisted
                    &&& nodes(out@) == o.ops
                    &&& self.counter == o.next
                }),
        {
            let ghost i = iter.index() as int;
            let ghost out0 = out@;
            proof {
                assert(all.take(i + 1).drop_last() =~= all.take(i));
                assert(all.take(i + 1).last() == items[i]@);
                assert(decreases_to!(items => items[i]));
            }
            let (hoist, op) = self.atom(arg);
            push_hoist(&mut hoisted, hoist);
            out.push(op);
            assert(nodes(out@) =~= nodes(out0).push(op@));
        }
        assert(all.take(all.len() as int) =~= all);
        self.bind_hoisted(hoisted, IrExpr::TailSelfCall { args: out, ty })
    }

    /// An argument of a tail self call.
    fn atom(&mut self, arg: IrExpr) -> (r: (Option<Hoisted>, IrExpr))
        ensures
            ({
                let o = atomize_one(old(self).counter, arg@);
                &&& opt_hoist(r.0) == o.hoist
                &&& r.1@ == o.op
                &&& final(self).counter == o.next
            }),
        decreases arg, 3nat,
    {
        let ty = arg.ty();
        if literal(&arg) || (matches!(arg, IrExpr::Var { .. }) && !is_heap(&ty)) {
            (None, arg)
        } else {
            let value = self.owned(arg);
            self.hoist(value, ty, false)
        }
    }

    /// Binds a rewritten value to a new temporary.
    fn hoist(&mut self, value: IrExpr, ty: Type, release: bool) -> (r: (Option<Hoisted>, IrExpr))
        ensures
            ({
                let o = hoisted_operand(old(self).counter, value@, ty@, release);
                &&& opt_hoist(r.0) == o.hoist
                &&& r.1@ == o.op
                &&& final(self).counter == o.next
            }),
    {
        let name = self.fresh();
        let read = IrExpr::var(name.clone(), ty.copy());
        (Some(Hoisted { name, ty, value, release }), read)
    }

    fn match_on(
        &mut self,
        scrutinee: IrExpr,
        arms: Vec<IrArm>,
        ty: Type,
        Ghost(whole): Ghost<IrExpr>,
    ) -> (r: IrExpr)
        requires
            whole@ == (Node::Match {
                scrutinee: Box::new(scrutinee@),
                arms: arm_nodes(arms@),
                ty: ty@,
            }),
            decreases_to!(whole => scrutinee),
            decreases_to!(whole => arms@),
        ensures
            ({
                let o = own_match(old(self).counter, whole@);
                &&& r@ == o.to
                &&& final(self).counter == o.next
            }),
        decreases whole, 1nat,
    {
        let arms = self.match_arms(arms);
        if matches!(scrutinee, IrExpr::Var { .. }) {
            IrExpr::match_of(scrutinee, arms, ty)
        } else {
            let sty = scrutinee.ty();
            let value = self.owned(scrutinee);
            let name = self.fresh();
            let arms = self.release_arms(arms, &name, &sty);
            let read = IrExpr::var(name.clone(), sty.copy());
            IrExpr::let_in(name, sty, value, IrExpr::match_of(read, arms, ty))
        }
    }

    fn match_arm(&mut self, arm: IrArm) -> (r: IrArm)
        ensures
            r@ == own_match_arm(old(self).counter, arm@).to,
            final(self).counter == own_match_arm(old(self).counter, arm@).next,
        decreases arm, 0nat,
    {
        let guard = match arm.guard {
            Some(g) => Some(self.owned(g)),
            None => None,
        };
        let body = self.owned(arm.body);
        IrArm { pattern: arm.pattern, guard, body }
    }

    fn catch_arm(&mut self, arm: IrArm, err: &String, err_ty: &Type) -> (r: IrArm)
        requires
            err_ty@ == caught_ty(),
        ensures
            r@ == own_catch_arm(old(self).counter, arm@, err@).to,
            final(self).counter == own_catch_arm(old(self).counter, arm@, err@).next,
        decreases arm, 0nat,
    {
        let body = self.owned(arm.body);
        let guard = match arm.guard {
            Some(g) => Some(self.owned(g)),
            None => None,
        };
        let body = self.release_at_tails(body, err, err_ty);
        IrArm { pattern: arm.pattern, guard, body }
    }

    fn match_arms(&mut self, arms: Vec<IrArm>) -> (r: Vec<IrArm>)
        ensures
            arm_nodes(r@) == own_match_arms(old(self).counter, arm_nodes(arms@)).to,
            final(self).counter == own_match_arms(old(self).counter, arm_nodes(arms@)).next,
        decreases arms@, 0nat,
    {
        let ghost all = arm_nodes(arms@);
        let ghost items = arms@;
        let mut out: Vec<IrArm> = Vec::new();
        assert(arm_nodes(out@) =~= own_match_arms(self.counter, all.take(0)).to);
        for arm in iter: arms
            invariant
                iter.seq() == items,
                all == arm_nodes(items),
                items == arms@,
                arm_nodes(out@) == own_match_arms(
                    old(self).counter,
                    all.take(iter.index() as int),
                ).to,
                self.counter == own_match_arms(
                    old(self).counter,
                    all.take(iter.index() as int),
                ).next,
        {
            let ghost i = iter.index() as int;
            let ghost out0 = out@;
            proof {
                assert(all.take(i + 1).drop_last() =~= all.take(i));
                assert(all.take(i + 1).last() == items[i]@);
                assert(decreases_to!(items => items[i]));
            }
            let arm = self.match_arm(arm);
            out.push(arm);
            assert(arm_nodes(out@) =~= arm_nodes(out0).push(arm@));
        }
        assert(all.take(all.len() as int) =~= all);
        out
    }

    fn catch_arms(&mut self, arms: Vec<IrArm>, err: &String) -> (r: Vec<IrArm>)
        ensures
            arm_nodes(r@) == own_catch_arms(old(self).counter, arm_nodes(arms@), err@).to,
            final(self).counter == own_catch_arms(
                old(self).counter,
                arm_nodes(arms@),
                err@,
            ).next,
        decreases arms@, 0nat,
    {
        let ghost all = arm_nodes(arms@);
        let ghost items = arms@;
        let no_args: Vec<Type> = Vec::new();
        assert(tys(no_args@) =~= Seq::<Ty>::empty());
        let err_ty = Type::Enum(crate::strings::owned("$caught"), no_args);
        let mut out: Vec<IrArm> = Vec::new();
        assert(arm_nodes(out@) =~= own_catch_arms(self.counter, all.take(0), err@).to);
        for arm in iter: arms
            invariant
                iter.seq() == items,
                all == arm_nodes(items),
                items == arms@,
                err_ty@ == caught_ty(),
                arm_nodes(out@) == own_catch_arms(
                    old(self).counter,
                    all.take(iter.index() as int),
                    err@,
                ).to,
                self.counter == own_catch_arms(
                    old(self).counter,
                    all.take(iter.index() as int),
                    err@,
                ).next,
        {
            let ghost i = iter.index() as int;
            let ghost out0 = out@;
            proof {
                assert(all.take(i + 1).drop_last() =~= all.take(i));
                assert(all.take(i + 1).last() == items[i]@);
                assert(decreases_to!(items => items[i]));
            }
            let arm = self.catch_arm(arm, err, &err_ty);
            out.push(arm);
            assert(arm_nodes(out@) =~= arm_nodes(out0).push(arm@));
        }
        assert(all.take(all.len() as int) =~= all);
        out
    }

    /// Rewrites operand `i` of the node `e`; `hoist` says whether it is bound
    /// to a temporary even where no release asks for it.
    fn operand(&mut self, arg: IrExpr, i: usize, mode: Mode, hoist: bool, Ghost(e): Ghost<Node>) -> (r: (
        Option<Hoisted>,
        IrExpr,
    ))
        requires
            i < operands_of(e).len(),
            operands_of(e)[i as int] == arg@,
            takes_ownership(e, i as int) == owns(mode, i as int),
            hoist == (operands_unwind(e) || hoists_later(e, i as int)),
        ensures
            ({
                let o = rewrite_operand(old(self).counter, e, i as int);
                &&& opt_hoist(r.0) == o.hoist
                &&& r.1@ == o.op
                &&& final(self).counter == o.next
            }),
        decreases arg, 3nat,
    {
        let ty = arg.ty();
        let own_it = match mode {
            Mode::Owned => true,
            Mode::Borrowed => false,
            Mode::Second => i == 1,
        };
        let heap_value = is_heap(&ty);
        let atom = matches!(arg, IrExpr::Var { .. } | IrExpr::String(_));
        if !own_it && heap_value && !atom {
            let value = self.owned(arg);
            self.hoist(value, ty, true)
        } else {
            let safe = reorder_safe(&arg);
            let value = if own_it || !heap_value {
                self.owned(arg)
            } else {
                arg
            };
            if !safe && hoist {
                self.hoist(value, ty, false)
            } else {
                (None, value)
            }
        }
    }

    /// Rewrites the operands of the node `e`.
    fn operands(
        &mut self,
        args: Vec<IrExpr>,
        mode: Mode,
        Ghost(e): Ghost<Node>,
        Ghost(whole): Ghost<IrExpr>,
    ) -> (r: (Vec<Hoisted>, Vec<IrExpr>))
        requires
            forall|i: int| 0 <= i < args@.len() ==> decreases_to!(whole => #[trigger] args@[i]),
            nodes(args@) == operands_of(e),
            forall|i: int| takes_ownership(e, i) == owns(mode, i),
        ensures
            ({
                let o = rewrite_operands(old(self).counter, e, operands_of(e).len());
                &&& hoists(r.0@) == o.hoisted
                &&& nodes(r.1@) == o.ops
                &&& final(self).counter == o.next
            }),
            r.1@.len() == args@.len(),
        decreases whole, 0nat,
    {
        proof {
            reveal(hoists_later);
            reveal(operands_unwind);
        }
        let ghost n0 = self.counter;
        let ghost items = args@;
        let total: usize = args.len();
        let throwy = any_may_throw(&args);
        // One past the last operand that is hoisted with a release.
        let last_hoist: usize = hoist_end(&args, mode, Ghost(e));
        let mut hoisted: Vec<Hoisted> = Vec::new();
        let mut out: Vec<IrExpr> = Vec::new();
        let mut i: usize = 0;
        proof {
            assert(hoists(hoisted@) =~= Seq::<Hoist>::empty());
            assert(nodes(out@) =~= Seq::<Node>::empty());
        }
        for arg in iter: args
            invariant
                iter.seq() == items,
                total == items.len(),
                i == iter.index(),
                forall|j: int| 0 <= j < items.len() ==> decreases_to!(whole => #[trigger] items[j]),
                nodes(items) == operands_of(e),
                forall|j: int| takes_ownership(e, j) == owns(mode, j),
                throwy == operands_unwind(e),
                last_hoist <= items.len(),
                last_hoist > 0 ==> needs_release(e, last_hoist - 1),
                forall|j: int| last_hoist <= j < items.len() ==> !#[trigger] needs_release(e, j),
                n0 == old(self).counter,
                out@.len() == i,
                ({
                    let o = rewrite_operands(n0, e, i as nat);
                    &&& hoists(hoisted@) == o.hoisted
                    &&& nodes(out@) == o.ops
                    &&& self.counter == o.next
                }),
        {
            proof {
                reveal(hoists_later);
                reveal(operands_unwind);
            }
            let ghost k = i as int;
            let ghost out0 = out@;
            proof {
                assert(operands_of(e)[k] == items[k]@);
                assert(hoists_later(e, k) == (k + 1 < last_hoist));
            }
            let (hoist, op) = self.operand(
                arg,
                i,
                mode,
                throwy || i + 1 < last_hoist,
                Ghost(e),
            );
            push_hoist(&mut hoisted, hoist);
            out.push(op);
            assert(nodes(out@) =~= nodes(out0).push(op@));
            i += 1;
        }
        (hoisted, out)
    }

    /// The bindings of `hoisted` around `body`.
    fn bind_hoisted(&mut self, hoisted: Vec<Hoisted>, body: IrExpr) -> (r: IrExpr)
        ensures
            r@ == bind_all(hoists(hoisted@), body@),
            final(self).counter == old(self).counter,
    {
        proof {
            reveal(bind_all);
        }
        let ghost all = hoists(hoisted@);
        let mut rest = hoisted;
        let mut out = body;
        while rest.len() > 0
            invariant
                bind_all(all, body@) == bind_all(hoists(rest@), out@),
                self.counter == old(self).counter,
            decreases rest.len(),
        {
            proof {
                reveal(bind_all);
            }
            let ghost rest0 = hoists(rest@);
            let h = rest.pop().unwrap();
            assert(hoists(rest@) =~= rest0.drop_last());
            assert(rest0.last() == h@);
            out = IrExpr::Let {
                name: h.name,
                value_ty: h.ty,
                value: Box::new(h.value),
                next: Box::new(out),
            };
        }
        out
    }

    /// Wraps `node` with the hoisted operand bindings and, after it, the
    /// releases of the borrowed ones.
    fn wrap(&mut self, hoisted: Vec<Hoisted>, node: IrExpr) -> (r: IrExpr)
        ensures
            r@ == wrap_node(old(self).counter, hoists(hoisted@), node@).to,
            final(self).counter == wrap_node(old(self).counter, hoists(hoisted@), node@).next,
    {
        proof {
            reveal(wrap_node);
        }
        if any_released(&hoisted) {
            let node_ty = node.ty();
            let result = self.fresh();
            let read = IrExpr::var(result.clone(), node_ty.copy());
            let tail = released(&hoisted, read);
            let body = IrExpr::let_in(result, node_ty, node, tail);
            self.bind_hoisted(hoisted, body)
        } else {
            self.bind_hoisted(hoisted, node)
        }
    }

    fn release_arm(&mut self, arm: IrArm, name: &String, ty: &Type) -> (r: IrArm)
        ensures
            r@ == release_arm_tail(old(self).counter, arm@, name@, ty@).to,
            final(self).counter == release_arm_tail(old(self).counter, arm@, name@, ty@).next,
        decreases arm,
    {
        proof {
            reveal(release_tails);
            reveal(release_arm_tail);
            reveal(release_arm_tails);
        }
        let body = self.release_at_tails(arm.body, name, ty);
        IrArm { pattern: arm.pattern, guard: arm.guard, body }
    }

    fn release_arms(&mut self, arms: Vec<IrArm>, name: &String, ty: &Type) -> (r: Vec<IrArm>)
        ensures
            arm_nodes(r@) == release_arm_tails(
                old(self).counter,
                arm_nodes(arms@),
                name@,
                ty@,
            ).to,
            final(self).counter == release_arm_tails(
                old(self).counter,
                arm_nodes(arms@),
                name@,
                ty@,
            ).next,
        decreases arms@,
    {
        proof {
            reveal(release_tails);
            reveal(release_arm_tail);
            reveal(release_arm_tails);
        }
        let ghost all = arm_nodes(arms@);
        let ghost items = arms@;
        let mut out: Vec<IrArm> = Vec::new();
        assert(arm_nodes(out@) =~= release_arm_tails(self.counter, all.take(0), name@, ty@).to);
        for arm in iter: arms
            invariant
                iter.seq() == items,
                all == arm_nodes(items),
                items == arms@,
                arm_nodes(out@) == release_arm_tails(
                    old(self).counter,
                    all.take(iter.index() as int),
                    name@,
                    ty@,
                ).to,
                self.counter == release_arm_tails(
                    old(self).counter,
                    all.take(iter.index() as int),
                    name@,
                    ty@,
                ).next,
        {
            proof {
                reveal(release_tails);
                reveal(release_arm_tail);
                reveal(release_arm_tails);
            }
            let ghost i = iter.index() as int;
            let ghost out0 = out@;
            proof {
                assert(all.take(i + 1).drop_last() =~= all.take(i));
                assert(all.take(i + 1).last() == items[i]@);
            }
            let arm = self.release_arm(arm, name, ty);
            out.push(arm);
            assert(arm_nodes(out@) =~= arm_nodes(out0).push(arm@));
        }
        assert(all.take(all.len() as int) =~= all);
        out
    }

    /// Inserts `release name` at every tail of `e`.
    pub fn release_at_tails(&mut self, e: IrExpr, name: &String, ty: &Type) -> (r: IrExpr)
        ensures
            r@ == release_tails(old(self).counter, e@, name@, ty@).to,
            final(self).counter == release_tails(old(self).counter, e@, name@, ty@).next,
        decreases e,
    {
        proof {
            reveal(release_tails);
            reveal(release_arm_tail);
            reveal(release_arm_tails);
        }
        match e {
            IrExpr::Let { name: n, value_ty, value, next } => {
                let handed = only_hands_on(&next, n.as_str());
                let value = value_release_at_tail_jumps(*value, handed, name, ty);
                let next = self.release_at_tails(*next, name, ty);
                IrExpr::let_in(n, value_ty, value, next)
            },
            IrExpr::Release { name: n, ty: t, next } => {
                let next = self.release_at_tails(*next, name, ty);
                IrExpr::Release { name: n, ty: t, next: Box::new(next) }
            },
            IrExpr::If { cond, then, els, ty: node_ty } => {
                let then = self.release_at_tails(*then, name, ty);
                let els = self.release_at_tails(*els, name, ty);
                IrExpr::If { cond, then: Box::new(then), els: Box::new(els), ty: node_ty }
            },
            IrExpr::Match { scrutinee, arms, ty: node_ty } => {
                let arms = self.release_arms(arms, name, ty);
                IrExpr::Match { scrutinee, arms, ty: node_ty }
            },
            IrExpr::Try { body, arms, ty: node_ty, err_name } => {
                let arms = arms_release_at_tail_jumps(arms, name, ty);
                self.leaf_release(IrExpr::Try { body, arms, ty: node_ty, err_name }, name, ty)
            },
            other => {
                if matches!(other, IrExpr::TailSelfCall { .. } | IrExpr::Throw { .. })
                    || reorder_safe(&other) {
                    IrExpr::Release { name: name.clone(), ty: ty.copy(), next: Box::new(other) }
                } else {
                    self.leaf_release(other, name, ty)
                }
            },
        }
    }

    fn leaf_release(&mut self, leaf: IrExpr, name: &String, ty: &Type) -> (r: IrExpr)
        ensures
            r@ == release_after(old(self).counter, leaf@, name@, ty@).to,
            final(self).counter == release_after(old(self).counter, leaf@, name@, ty@).next,
    {
        proof {
            reveal(release_after);
        }
        let leaf_ty = leaf.ty();
        let result = self.fresh();
        let read = IrExpr::var(result.clone(), leaf_ty.copy());
        let tail = IrExpr::release(name.clone(), ty.copy(), read);
        IrExpr::let_in(result, leaf_ty, leaf, tail)
    }
}

fn any_released(hoisted: &Vec<Hoisted>) -> (r: bool)
    ensures
        r == any_release(hoists(hoisted@)),
{
    let mut i: usize = 0;
    while i < hoisted.len()
        invariant
            i <= hoisted.len(),
            forall|j: int| 0 <= j < i ==> !(#[trigger] hoists(hoisted@)[j]).release,
        decreases hoisted.len() - i,
    {
        assert(hoists(hoisted@)[i as int] == hoisted@[i as int]@);
        if hoisted[i].release {
            return true;
        }
        i += 1;
    }
    false
}

/// The releases of the borrowed temporaries above `body`.
fn released(hoisted: &Vec<Hoisted>, body: IrExpr) -> (r: IrExpr)
    ensures
        r@ == release_all(hoists(hoisted@), body@),
{
    proof {
        reveal(release_all);
    }
    let ghost all = hoists(hoisted@);
    let mut tail = body;
    let mut k: usize = 0;
    assert(all.take(0) =~= Seq::<Hoist>::empty());
    while k < hoisted.len()
        invariant
            k <= hoisted.len(),
            all == hoists(hoisted@),
            tail@ == release_all(all.take(k as int), body@),
        decreases hoisted.len() - k,
    {
        proof {
            reveal(release_all);
        }
        proof {
            assert(all.take(k + 1).drop_last() =~= all.take(k as int));
            assert(all.take(k + 1).last() == hoisted@[k as int]@);
        }
        if hoisted[k].release {
            tail = IrExpr::release(hoisted[k].name.clone(), hoisted[k].ty.copy(), tail);
        }
        k += 1;
    }
    assert(all.take(all.len() as int) =~= all);
    tail
}

/// The operands of a pair.
fn unpair(ops: Vec<IrExpr>) -> (r: (IrExpr, IrExpr))
    requires
        ops@.len() == 2,
    ensures
        nodes(ops@)[0] == r.0@,
        nodes(ops@)[1] == r.1@,
{
    let mut ops = ops;
    let right = ops.pop().unwrap();
    let left = ops.pop().unwrap();
    (left, right)
}

/// The operand of a single.
fn unsingle(ops: Vec<IrExpr>) -> (r: IrExpr)
    requires
        ops@.len() == 1,
    ensures
        nodes(ops@)[0] == r@,
{
    let mut ops = ops;
    ops.pop().unwrap()
}

fn any_may_throw(args: &Vec<IrExpr>) -> (r: bool)
    ensures
        r == exists|j: int|
            0 <= j < nodes(args@).len() && can_unwind(#[trigger] nodes(args@)[j]),
{
    let mut i: usize = 0;
    while i < args.len()
        invariant
            i <= args.len(),
            forall|j: int| 0 <= j < i ==> !can_unwind(#[trigger] nodes(args@)[j]),
        decreases args.len() - i,
    {
        assert(nodes(args@)[i as int] == args@[i as int]@);
        if may_throw(&args[i]) {
            return true;
        }
        i += 1;
    }
    false
}

/// One past the last operand that needs a released temporary, or zero.
fn hoist_end(args: &Vec<IrExpr>, mode: Mode, Ghost(e): Ghost<Node>) -> (r: usize)
    requires
        nodes(args@) == operands_of(e),
        forall|i: int| takes_ownership(e, i) == owns(mode, i),
    ensures
        r <= args@.len(),
        r > 0 ==> needs_release(e, r - 1),
        forall|j: int| r <= j < args@.len() ==> !#[trigger] needs_release(e, j),
{
    let mut end: usize = args.len();
    while end > 0
        invariant
            end <= args@.len(),
            nodes(args@) == operands_of(e),
            forall|i: int| takes_ownership(e, i) == owns(mode, i),
            forall|j: int| end <= j < args@.len() ==> !#[trigger] needs_release(e, j),
        decreases end,
    {
        let i: usize = end - 1;
        assert(operands_of(e)[i as int] == args@[i as int]@);
        let own_it = match mode {
            Mode::Owned => true,
            Mode::Borrowed => false,
            Mode::Second => i == 1,
        };
        if !own_it && is_heap(&args[i].ty()) && !matches!(
            &args[i],
            IrExpr::Var { .. } | IrExpr::String(_)
        ) {
            return end;
        }
        end = i;
    }
    0
}

fn only_hands_on(scope: &IrExpr, bound: &str) -> (r: bool)
    ensures
        r == hands_on(scope@, bound@),
    decreases scope,
{
    match scope {
        IrExpr::Release { next, .. } => only_hands_on(next, bound),
        IrExpr::Var { name, .. } => same(name.as_str(), bound),
        _ => false,
    }
}

fn value_release_at_tail_jumps(value: IrExpr, handed_on: bool, name: &String, ty: &Type) -> (r:
    IrExpr)
    ensures
        r@ == release_value_jumps(value@, handed_on, name@, ty@),
    decreases value,
{
    proof {
        reveal(release_jumps);
        reveal(release_arm_jump);
        reveal(release_arm_jumps);
    }
    match value {
        IrExpr::Try { body, arms, ty: node_ty, err_name } => if handed_on {
            let arms = arms_release_at_tail_jumps(arms, name, ty);
            IrExpr::Try { body, arms, ty: node_ty, err_name }
        } else {
            IrExpr::Try { body, arms, ty: node_ty, err_name }
        },
        other => other,
    }
}

fn arm_release_at_tail_jumps(arm: IrArm, name: &String, ty: &Type) -> (r: IrArm)
    ensures
        r@ == release_arm_jump(arm@, name@, ty@),
    decreases arm,
{
    proof {
        reveal(release_jumps);
        reveal(release_arm_jump);
        reveal(release_arm_jumps);
    }
    let body = release_at_tail_jumps(arm.body, name, ty);
    IrArm { pattern: arm.pattern, guard: arm.guard, body }
}

fn arms_release_at_tail_jumps(arms: Vec<IrArm>, name: &String, ty: &Type) -> (r: Vec<IrArm>)
    ensures
        arm_nodes(r@) == release_arm_jumps(arm_nodes(arms@), name@, ty@),
    decreases arms@,
{
    proof {
        reveal(release_jumps);
        reveal(release_arm_jump);
        reveal(release_arm_jumps);
    }
    let ghost all = arm_nodes(arms@);
    let ghost items = arms@;
    let mut out: Vec<IrArm> = Vec::new();
    assert(arm_nodes(out@) =~= release_arm_jumps(all.take(0), name@, ty@));
    for arm in iter: arms
        invariant
            iter.seq() == items,
            all == arm_nodes(items),
            items == arms@,
            arm_nodes(out@) == release_arm_jumps(all.take(iter.index() as int), name@, ty@),
    {
        proof {
            reveal(release_jumps);
            reveal(release_arm_jump);
            reveal(release_arm_jumps);
        }
        let ghost i = iter.index() as int;
        let ghost out0 = out@;
        proof {
            assert(all.take(i + 1).drop_last() =~= all.take(i));
            assert(all.take(i + 1).last() == items[i]@);
        }
        let arm = arm_release_at_tail_jumps(arm, name, ty);
        out.push(arm);
        assert(arm_nodes(out@) =~= arm_nodes(out0).push(arm@));
    }
    assert(all.take(all.len() as int) =~= all);
    out
}

/// Like [`Cx::release_at_tails`], but only wraps the jumps and leaves value
/// tails untouched.
pub fn release_at_tail_jumps(e: IrExpr, name: &String, ty: &Type) -> (r: IrExpr)
    ensures
        r@ == release_jumps(e@, name@, ty@),
    decreases e,
{
    proof {
        reveal(release_jumps);
        reveal(release_arm_jump);
        reveal(release_arm_jumps);
    }
    match e {
        IrExpr::Let { name: n, value_ty, value, next } => {
            let handed = only_hands_on(&next, n.as_str());
            let value = value_release_at_tail_jumps(*value, handed, name, ty);
            let next = release_at_tail_jumps(*next, name, ty);
            IrExpr::let_in(n, value_ty, value, next)
        },
        IrExpr::Release { name: n, ty: t, next } => IrExpr::Release {
            name: n,
            ty: t,
            next: Box::new(release_at_tail_jumps(*next, name, ty)),
        },
        IrExpr::If { cond, then, els, ty: node_ty } => IrExpr::If {
            cond,
            then: Box::new(release_at_tail_jumps(*then, name, ty)),
            els: Box::new(release_at_tail_jumps(*els, name, ty)),
            ty: node_ty,
        },
        IrExpr::Match { scrutinee, arms, ty: node_ty } => IrExpr::Match {
            scrutinee,
            arms: arms_release_at_tail_jumps(arms, name, ty),
            ty: node_ty,
        },
        IrExpr::Try { body, arms, ty: node_ty, err_name } => IrExpr::Try {
            body,
            arms: arms_release_at_tail_jumps(arms, name, ty),
            ty: node_ty,
            err_name,
        },
        other => {
            if matches!(other, IrExpr::TailSelfCall { .. } | IrExpr::Throw { .. }) {
                IrExpr::Release { name: name.clone(), ty: ty.copy(), next: Box::new(other) }
            } else {
                other
            }
        },
    }
}

} // verus!
