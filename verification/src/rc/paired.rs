//! Inserted retains stand where references are kept, and nowhere else.

use vstd::prelude::*;

use crate::ir::{node_ty, ArmNode, Bind, Node};
use crate::rc::count::{
    hold_of, holds, is_own, paired, paired_all, paired_arm, paired_arms, paired_operand, Hold,
};
use crate::rc::insert::{
    atomize, atomize_one, bind_all, caught_ty, hands_on, is_reorder_safe, needs_release,
    operands_of, own, own_body, own_call, own_catch_arm, own_catch_arms, own_match,
    own_match_arm, own_match_arms, release_after, release_all, release_arm_jump,
    release_arm_jumps, release_arm_tail, release_arm_tails, release_jumps, release_params,
    release_tails, release_value_jumps, rewrite_operand, rewrite_operands, stays_inline,
    takes_ownership, temp_name, with_operands, wrap_node, Hoist, Operand, Operands,
};
use crate::rc::laws::is_temp;
use crate::rc::once::{unmanaged, unmanaged_all, unmanaged_arm, unmanaged_arms};
use crate::rc::place::bare;
use crate::rc::rename::next_count;
use crate::types::{heap, Ty};

verus! {

proof fn lemma_temp(n: u64, x: Seq<char>)
    requires
        !is_temp(x),
    ensures
        temp_name(n) != x,
{
    if temp_name(n) == x {
        assert(is_temp(x));
    }
}

proof fn lemma_after(n: u64, leaf: Node, name: Seq<char>, ty: Ty, x: Seq<char>)
    requires
        paired(leaf, x),
        !is_temp(x),
    ensures
        paired(release_after(n, leaf, name, ty).to, x),
        node_ty(release_after(n, leaf, name, ty).to) == node_ty(leaf),
{
    reveal(release_after);
    lemma_temp(n, x);
    let read = Node::Var { name: temp_name(n), ty: node_ty(leaf) };
    let released = Node::Release { name, ty, next: Box::new(read) };
    assert(paired(read, x));
    assert(paired(released, x));
    assert(node_ty(released) == node_ty(read));
}

/// Releases before jumps leave retains where they are.
proof fn lemma_jumps(e: Node, name: Seq<char>, ty: Ty, x: Seq<char>)
    requires
        paired(e, x),
    ensures
        paired(release_jumps(e, name, ty), x),
        node_ty(release_jumps(e, name, ty)) == node_ty(e),
    decreases e, 0nat,
{
    reveal(release_jumps);
    reveal(release_arm_jump);
    reveal(release_arm_jumps);
    match e {
        Node::Let { name: n, value, next, .. } => {
            lemma_value_jumps(*value, hands_on(*next, n), name, ty, x);
            lemma_jumps(*next, name, ty, x);
        },
        Node::Release { next, .. } => lemma_jumps(*next, name, ty, x),
        Node::If { then, els, .. } => {
            lemma_jumps(*then, name, ty, x);
            lemma_jumps(*els, name, ty, x);
        },
        Node::Match { arms, .. } => lemma_arm_jumps(arms, name, ty, x),
        Node::Try { arms, .. } => lemma_arm_jumps(arms, name, ty, x),
        _ => {},
    }
}

proof fn lemma_value_jumps(value: Node, handed_on: bool, name: Seq<char>, ty: Ty, x: Seq<char>)
    requires
        paired(value, x),
    ensures
        paired(release_value_jumps(value, handed_on, name, ty), x),
        node_ty(release_value_jumps(value, handed_on, name, ty)) == node_ty(value),
    decreases value, 0nat,
{
    reveal(release_jumps);
    reveal(release_arm_jump);
    reveal(release_arm_jumps);
    if let Node::Try { arms, .. } = value {
        lemma_arm_jumps(arms, name, ty, x);
    }
}

proof fn lemma_arm_jump(arm: ArmNode, name: Seq<char>, ty: Ty, x: Seq<char>)
    requires
        paired_arm(arm, x),
    ensures
        paired_arm(release_arm_jump(arm, name, ty), x),
    decreases arm, 0nat,
{
    reveal(release_jumps);
    reveal(release_arm_jump);
    reveal(release_arm_jumps);
    lemma_jumps(*arm.body, name, ty, x);
}

proof fn lemma_arm_jumps(s: Seq<ArmNode>, name: Seq<char>, ty: Ty, x: Seq<char>)
    requires
        paired_arms(s, x),
    ensures
        paired_arms(release_arm_jumps(s, name, ty), x),
    decreases s, 0nat,
{
    reveal(release_jumps);
    reveal(release_arm_jump);
    reveal(release_arm_jumps);
    if s.len() > 0 {
        lemma_arm_jumps(s.drop_last(), name, ty, x);
        lemma_arm_jump(s.last(), name, ty, x);
        let t = release_arm_jumps(s, name, ty);
        assert(t.drop_last() =~= release_arm_jumps(s.drop_last(), name, ty));
    }
}

/// Releases at the tails leave retains where they are.
proof fn lemma_tails(n: u64, e: Node, name: Seq<char>, ty: Ty, x: Seq<char>)
    requires
        paired(e, x),
        !is_temp(x),
    ensures
        paired(release_tails(n, e, name, ty).to, x),
        node_ty(release_tails(n, e, name, ty).to) == node_ty(e),
    decreases e, 0nat,
{
    reveal(release_tails);
    reveal(release_arm_tail);
    reveal(release_arm_tails);
    match e {
        Node::Let { name: b, value, next, .. } => {
            lemma_value_jumps(*value, hands_on(*next, b), name, ty, x);
            lemma_tails(n, *next, name, ty, x);
        },
        Node::Release { next, .. } => lemma_tails(n, *next, name, ty, x),
        Node::If { then, els, .. } => {
            lemma_tails(n, *then, name, ty, x);
            lemma_tails(release_tails(n, *then, name, ty).next, *els, name, ty, x);
        },
        Node::Match { arms, .. } => lemma_arm_tails(n, arms, name, ty, x),
        Node::Try { body, arms, ty: node_ty, err_name } => {
            lemma_arm_jumps(arms, name, ty, x);
            lemma_after(
                n,
                Node::Try { body, arms: release_arm_jumps(arms, name, ty), ty: node_ty, err_name },
                name,
                ty,
                x,
            );
        },
        Node::TailSelfCall { .. } => {},
        Node::Throw { .. } => {},
        _ => {
            if !is_reorder_safe(e) {
                lemma_after(n, e, name, ty, x);
            }
        },
    }
}

proof fn lemma_arm_tail(n: u64, arm: ArmNode, name: Seq<char>, ty: Ty, x: Seq<char>)
    requires
        paired_arm(arm, x),
        !is_temp(x),
    ensures
        paired_arm(release_arm_tail(n, arm, name, ty).to, x),
    decreases arm, 0nat,
{
    reveal(release_tails);
    reveal(release_arm_tail);
    reveal(release_arm_tails);
    lemma_tails(n, *arm.body, name, ty, x);
}

proof fn lemma_arm_tails(n: u64, s: Seq<ArmNode>, name: Seq<char>, ty: Ty, x: Seq<char>)
    requires
        paired_arms(s, x),
        !is_temp(x),
    ensures
        paired_arms(release_arm_tails(n, s, name, ty).to, x),
    decreases s, 0nat,
{
    reveal(release_tails);
    reveal(release_arm_tail);
    reveal(release_arm_tails);
    if s.len() > 0 {
        lemma_arm_tails(n, s.drop_last(), name, ty, x);
        let init = release_arm_tails(n, s.drop_last(), name, ty);
        lemma_arm_tail(init.next, s.last(), name, ty, x);
        assert(release_arm_tails(n, s, name, ty).to.drop_last() =~= init.to);
    }
}

/// [`paired`], of what operands are hoisted.
spec fn hoists_paired(s: Seq<Hoist>, x: Seq<char>) -> bool {
    forall|i: int| 0 <= i < s.len() ==> paired((#[trigger] s[i]).value, x)
}

proof fn lemma_bind(s: Seq<Hoist>, body: Node, x: Seq<char>)
    requires
        hoists_paired(s, x),
        paired(body, x),
    ensures
        paired(bind_all(s, body), x),
        node_ty(bind_all(s, body)) == node_ty(body),
        bare(bind_all(s, body)) is Var ==> bare(body) is Var,
    decreases s.len(),
{
    reveal(bind_all);
    if s.len() > 0 {
        let h = s.last();
        assert(s[s.len() - 1] == h);
        let inner = Node::Let {
            name: h.name,
            value_ty: h.ty,
            value: Box::new(h.value),
            next: Box::new(body),
        };
        assert forall|i: int| 0 <= i < s.drop_last().len() implies paired(
            (#[trigger] s.drop_last()[i]).value,
            x,
        ) by {
            assert(s.drop_last()[i] == s[i]);
        }
        assert(paired(inner, x));
        lemma_bind(s.drop_last(), inner, x);
    }
}

proof fn lemma_release_all(s: Seq<Hoist>, body: Node, x: Seq<char>)
    requires
        paired(body, x),
    ensures
        paired(release_all(s, body), x),
        node_ty(release_all(s, body)) == node_ty(body),
    decreases s.len(),
{
    reveal(release_all);
    if s.len() > 0 {
        lemma_release_all(s.drop_last(), body, x);
    }
}

proof fn lemma_wrap(n: u64, s: Seq<Hoist>, node: Node, x: Seq<char>)
    requires
        hoists_paired(s, x),
        paired(node, x),
        !is_temp(x),
        !(bare(node) is Var),
    ensures
        paired(wrap_node(n, s, node).to, x),
        node_ty(wrap_node(n, s, node).to) == node_ty(node),
        !(bare(wrap_node(n, s, node).to) is Var),
{
    reveal(wrap_node);
    lemma_bind(s, node, x);
    let name = temp_name(n);
    let ty = node_ty(node);
    lemma_temp(n, x);
    let read = Node::Var { name, ty };
    assert(paired(read, x));
    lemma_release_all(s, read, x);
    let after = release_all(s, read);
    let inner = Node::Let { name, value_ty: ty, value: Box::new(node), next: Box::new(after) };
    assert(paired(inner, x));
    assert(node_ty(inner) == ty);
    lemma_bind(s, inner, x);
}

/// A node takes ownership of the operands whose references it keeps.
proof fn lemma_takes(e: Node, i: int)
    ensures
        takes_ownership(e, i) == (holds(hold_of(e), i) && !(e is TailSelfCall)),
{
}

/// What stands in the place of an operand.
spec fn operand_paired(o: Operand, held: bool, arg: Node, x: Seq<char>) -> bool {
    &&& paired_operand(held, o.op, x)
    &&& node_ty(o.op) == node_ty(arg)
    &&& o.hoist matches Some(h) ==> paired(h.value, x)
}

proof fn lemma_operand_paired(n: u64, e: Node, i: int, x: Seq<char>)
    requires
        0 <= i < operands_of(e).len(),
        unmanaged(operands_of(e)[i]),
        !is_temp(x),
        !(e is TailSelfCall),
    ensures
        operand_paired(rewrite_operand(n, e, i), holds(hold_of(e), i), operands_of(e)[i], x),
    decreases e, 0nat,
{
    let arg = operands_of(e)[i];
    let held = holds(hold_of(e), i);
    lemma_takes(e, i);
    lemma_own_paired(n, arg, x);
    let v = own(n, arg);
    lemma_temp(v.next, x);
    let o = rewrite_operand(n, e, i);
    if needs_release(e, i) {
        assert(o.op is Var);
        assert(!is_own(held, o.op));
    } else if takes_ownership(e, i) || !heap(node_ty(arg)) {
        assert(is_own(held, o.op));
        assert(paired(o.op, x));
    } else {
        assert(o.op == arg);
        assert(!is_own(held, o.op));
    }
}

/// What stands in the places of the first operands.
spec fn operands_paired(r: Operands, h: Hold, k: nat, x: Seq<char>) -> bool {
    &&& r.ops.len() == k
    &&& paired_all(h, r.ops, x)
    &&& hoists_paired(r.hoisted, x)
}

spec fn unmanaged_operands(e: Node) -> bool {
    forall|i: int| 0 <= i < operands_of(e).len() ==> unmanaged(#[trigger] operands_of(e)[i])
}

proof fn lemma_operands_paired(n: u64, e: Node, k: nat, x: Seq<char>)
    requires
        k <= operands_of(e).len(),
        unmanaged_operands(e),
        !is_temp(x),
        !(e is TailSelfCall),
    ensures
        operands_paired(rewrite_operands(n, e, k), hold_of(e), k, x),
    decreases e, k + 1,
{
    if k > 0 {
        let init = rewrite_operands(n, e, (k - 1) as nat);
        lemma_operands_paired(n, e, (k - 1) as nat, x);
        assert(unmanaged(operands_of(e)[k - 1]));
        lemma_operand_paired(init.next, e, k - 1, x);
        let o = rewrite_operand(init.next, e, k - 1);
        let r = rewrite_operands(n, e, k);
        assert(r.ops.drop_last() =~= init.ops);
        assert(r.ops.last() == o.op);
    }
}

proof fn lemma_all_unmanaged(s: Seq<Node>, i: int)
    requires
        unmanaged_all(s),
        0 <= i < s.len(),
    ensures
        unmanaged(s[i]),
    decreases s.len(),
{
    if i < s.len() - 1 {
        lemma_all_unmanaged(s.drop_last(), i);
    }
}

proof fn lemma_unmanaged_operands(e: Node)
    requires
        unmanaged(e),
    ensures
        unmanaged_operands(e),
{
    assert forall|i: int| 0 <= i < operands_of(e).len() implies unmanaged(
        #[trigger] operands_of(e)[i],
    ) by {
        match e {
            Node::Call { args, .. } => lemma_all_unmanaged(args, i),
            Node::Intrinsic { args, .. } => lemma_all_unmanaged(args, i),
            Node::Platform { args, .. } => lemma_all_unmanaged(args, i),
            Node::Array { elems, .. } => lemma_all_unmanaged(elems, i),
            Node::EnumValue { payload, .. } => lemma_all_unmanaged(payload, i),
            Node::RecordValue { fields, .. } => lemma_all_unmanaged(fields, i),
            _ => {},
        }
    }
}

/// A node over operands that are paired.
proof fn lemma_with_operands(e: Node, ops: Seq<Node>, x: Seq<char>)
    requires
        ops.len() == operands_of(e).len(),
        paired_all(hold_of(e), ops, x),
        e is Intrinsic || e is Platform || e is Binary || e is Concat || e is Array || e is EnumValue
            || e is RecordValue || e is FieldAccess || e is CharFromCode || e is StringFromChar,
    ensures
        paired(with_operands(e, ops), x),
        node_ty(with_operands(e, ops)) == node_ty(e),
        !(bare(with_operands(e, ops)) is Var),
{
    reveal_with_fuel(paired_all, 3);
    if e is Binary || e is Concat {
        assert(ops.drop_last().last() == ops[0]);
        assert(ops.drop_last().len() == 1);
    }
}

proof fn lemma_atomize_one(n: u64, arg: Node, x: Seq<char>)
    requires
        unmanaged(arg),
        !is_temp(x),
    ensures
        operand_paired(atomize_one(n, arg), true, arg, x),
    decreases arg, operands_of(arg).len() + 4,
{
    if !stays_inline(arg) {
        lemma_own_paired(n, arg, x);
        lemma_temp(own(n, arg).next, x);
    }
}

proof fn lemma_atomize(n: u64, args: Seq<Node>, x: Seq<char>)
    requires
        unmanaged_all(args),
        !is_temp(x),
    ensures
        operands_paired(atomize(n, args), Hold::All, args.len(), x),
    decreases args, 0nat,
{
    if args.len() > 0 {
        let init = atomize(n, args.drop_last());
        lemma_atomize(n, args.drop_last(), x);
        lemma_atomize_one(init.next, args.last(), x);
        let r = atomize(n, args);
        assert(r.ops.drop_last() =~= init.ops);
    }
}

proof fn lemma_match_arm(n: u64, arm: ArmNode, x: Seq<char>)
    requires
        unmanaged_arm(arm),
        !is_temp(x),
    ensures
        paired_arm(own_match_arm(n, arm).to, x),
    decreases arm, 0nat,
{
    match arm.guard {
        Some(guard) => {
            lemma_own_paired(n, *guard, x);
            lemma_own_paired(own(n, *guard).next, *arm.body, x);
        },
        None => lemma_own_paired(n, *arm.body, x),
    }
}

proof fn lemma_match_arms(n: u64, s: Seq<ArmNode>, x: Seq<char>)
    requires
        unmanaged_arms(s),
        !is_temp(x),
    ensures
        paired_arms(own_match_arms(n, s).to, x),
    decreases s, 0nat,
{
    if s.len() > 0 {
        lemma_match_arms(n, s.drop_last(), x);
        let init = own_match_arms(n, s.drop_last());
        lemma_match_arm(init.next, s.last(), x);
        assert(own_match_arms(n, s).to.drop_last() =~= init.to);
    }
}

proof fn lemma_catch_arm(n: u64, arm: ArmNode, err: Seq<char>, x: Seq<char>)
    requires
        unmanaged_arm(arm),
        !is_temp(x),
    ensures
        paired_arm(own_catch_arm(n, arm, err).to, x),
    decreases arm, 0nat,
{
    let b = own(n, *arm.body);
    lemma_own_paired(n, *arm.body, x);
    match arm.guard {
        Some(guard) => {
            lemma_own_paired(b.next, *guard, x);
            lemma_tails(own(b.next, *guard).next, b.to, err, caught_ty(), x);
        },
        None => lemma_tails(b.next, b.to, err, caught_ty(), x),
    }
}

proof fn lemma_catch_arms(n: u64, s: Seq<ArmNode>, err: Seq<char>, x: Seq<char>)
    requires
        unmanaged_arms(s),
        !is_temp(x),
    ensures
        paired_arms(own_catch_arms(n, s, err).to, x),
    decreases s, 0nat,
{
    if s.len() > 0 {
        lemma_catch_arms(n, s.drop_last(), err, x);
        let init = own_catch_arms(n, s.drop_last(), err);
        lemma_catch_arm(init.next, s.last(), err, x);
        assert(own_catch_arms(n, s, err).to.drop_last() =~= init.to);
    }
}

proof fn lemma_call(n: u64, e: Node, x: Seq<char>)
    requires
        e is Call,
        unmanaged(e),
        !is_temp(x),
    ensures
        paired(own_call(n, e).to, x),
        node_ty(own_call(n, e).to) == node_ty(e),
        !(bare(own_call(n, e).to) is Var),
    decreases e, operands_of(e).len() + 2,
{
    if let Node::Call { callee, args, ret } = e {
        lemma_unmanaged_operands(e);
        lemma_operands_paired(n, e, args.len(), x);
        let r = rewrite_operands(n, e, args.len());
        if *callee is FunctionRef || *callee is Var {
            let node = Node::Call { callee, args: r.ops, ret };
            assert(paired(node, x));
            lemma_wrap(r.next, r.hoisted, node, x);
        } else {
            let ty = node_ty(*callee);
            let v = own(r.next, *callee);
            lemma_own_paired(r.next, *callee, x);
            let name = temp_name(v.next);
            let h = Hoist { name, ty, value: v.to, release: true };
            let s = seq![h] + r.hoisted;
            assert forall|i: int| 0 <= i < s.len() implies paired((#[trigger] s[i]).value, x) by {
                if i > 0 {
                    assert(s[i] == r.hoisted[i - 1]);
                } else {
                    assert(s[i] == h);
                }
            }
            let node = Node::Call {
                callee: Box::new(Node::Var { name, ty }),
                args: r.ops,
                ret,
            };
            assert(paired(node, x));
            lemma_wrap(next_count(v.next), s, node, x);
        }
    }
}

proof fn lemma_match(n: u64, e: Node, x: Seq<char>)
    requires
        e is Match,
        unmanaged(e),
        !is_temp(x),
    ensures
        paired(own_match(n, e).to, x),
        node_ty(own_match(n, e).to) == node_ty(e),
        !(bare(own_match(n, e).to) is Var),
    decreases e, 0nat,
{
    if let Node::Match { scrutinee, arms, ty } = e {
        lemma_match_arms(n, arms, x);
        let a = own_match_arms(n, arms);
        if !(*scrutinee is Var) {
            let sty = node_ty(*scrutinee);
            let v = own(a.next, *scrutinee);
            lemma_own_paired(a.next, *scrutinee, x);
            let name = temp_name(v.next);
            lemma_arm_tails(next_count(v.next), a.to, name, sty, x);
            let t = release_arm_tails(next_count(v.next), a.to, name, sty);
            let inner = Node::Match {
                scrutinee: Box::new(Node::Var { name, ty: sty }),
                arms: t.to,
                ty,
            };
            assert(paired(inner, x));
            assert(node_ty(inner) == ty);
            assert(own_match(n, e).to == Node::Let {
                name,
                value_ty: sty,
                value: Box::new(v.to),
                next: Box::new(inner),
            });
        }
    }
}

proof fn lemma_params(n: u64, params: Seq<Bind>, body: Node, x: Seq<char>)
    requires
        paired(body, x),
        !is_temp(x),
    ensures
        paired(release_params(n, params, body).to, x),
    decreases params.len(),
{
    reveal(release_params);
    if params.len() > 0 {
        lemma_params(n, params.drop_last(), body, x);
        let init = release_params(n, params.drop_last(), body);
        let p = params.last();
        if heap(p.ty) {
            lemma_tails(init.next, init.to, p.name, p.ty, x);
        }
    }
}

/// In an owned expression a variable is retained where the reference is kept, and
/// nowhere else; what evaluates to a heap value that is only looked at has a name.
pub proof fn lemma_own_paired(n: u64, e: Node, x: Seq<char>)
    requires
        unmanaged(e),
        !is_temp(x),
    ensures
        paired(own(n, e).to, x),
        node_ty(own(n, e).to) == node_ty(e),
        bare(own(n, e).to) is Var ==> e is Var,
    decreases e, operands_of(e).len() + 3,
{
    match e {
        Node::Var { ty, .. } => {
            assert(node_ty(e) == ty);
        },
        Node::Let { name, value_ty, value, next } => {
            let v = own(n, *value);
            let b = own(v.next, *next);
            lemma_own_paired(n, *value, x);
            lemma_own_paired(v.next, *next, x);
            if heap(value_ty) {
                lemma_tails(b.next, b.to, name, value_ty, x);
            }
        },
        Node::Call { .. } => lemma_call(n, e, x),
        Node::TailSelfCall { args, ty } => {
            lemma_atomize(n, args, x);
            let r = atomize(n, args);
            let node = Node::TailSelfCall { args: r.ops, ty };
            assert(paired(node, x));
            lemma_bind(r.hoisted, node, x);
        },
        Node::Intrinsic { .. } | Node::Platform { .. } | Node::Binary { .. } | Node::Concat { .. }
        | Node::Array { .. } | Node::EnumValue { .. } | Node::RecordValue { .. }
        | Node::FieldAccess { .. } | Node::CharFromCode(_) | Node::StringFromChar(_) => {
            lemma_unmanaged_operands(e);
            let k = operands_of(e).len();
            lemma_operands_paired(n, e, k, x);
            let r = rewrite_operands(n, e, k);
            lemma_with_operands(e, r.ops, x);
            lemma_wrap(r.next, r.hoisted, with_operands(e, r.ops), x);
        },
        Node::If { cond, then, els, .. } => {
            let c = own(n, *cond);
            let t = own(c.next, *then);
            lemma_own_paired(n, *cond, x);
            lemma_own_paired(c.next, *then, x);
            lemma_own_paired(t.next, *els, x);
        },
        Node::Match { .. } => lemma_match(n, e, x),
        Node::Try { body, arms, .. } => {
            let err = temp_name(n);
            let a = own_catch_arms(next_count(n), arms, err);
            lemma_catch_arms(next_count(n), arms, err, x);
            lemma_own_paired(a.next, *body, x);
        },
        Node::Question { value, .. } => lemma_own_paired(n, *value, x),
        Node::Throw { value } => {
            let v = own(n, *value);
            lemma_own_paired(n, *value, x);
            lemma_temp(v.next, x);
            let ty = node_ty(v.to);
            let read = Node::Var { name: temp_name(v.next), ty };
            assert(paired(read, x));
            let thrown = Node::Throw { value: Box::new(read) };
            assert(paired(thrown, x));
            assert(node_ty(thrown) == node_ty(e));
        },
        Node::Panic { message } => {
            if !(*message is Var) {
                lemma_own_paired(n, *message, x);
            }
        },
        Node::Fn { params, body, .. } => {
            let r = own(n, *body);
            lemma_own_paired(n, *body, x);
            lemma_params(r.next, params, r.to, x);
        },
        _ => {},
    }
}

/// [`lemma_own_paired`], of a function's body.
pub proof fn lemma_body_paired(n: u64, params: Seq<Bind>, body: Node, x: Seq<char>)
    requires
        unmanaged(body),
        !is_temp(x),
    ensures
        paired(own_body(n, params, body).to, x),
{
    lemma_own_paired(n, body, x);
    let r = own(n, body);
    lemma_params(r.next, params, r.to, x);
}

} // verus!
