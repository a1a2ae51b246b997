//! A name that is not bound in an expression is not bound in its owned form.

use vstd::prelude::*;

use crate::ir::{node_ty, ArmNode, Bind, Node, Pat};
use crate::rc::apart::{
    apart, apart_all, apart_arm, apart_arms, field_vis, pattern_vis,
};
use crate::rc::insert::{
    add_hoist, any_release, atomize, atomize_one, bind_all, caught_ty, operands_of, own, own_body,
    own_call, own_catch_arm, own_catch_arms, own_match, own_match_arm, own_match_arms,
    release_after, release_all, release_arm_jump, release_arm_jumps, release_arm_tail,
    release_arm_tails, release_jumps, release_params, release_tails, release_value_jumps,
    rewrite_operand, rewrite_operands, temp_name, with_operands, wrap_node, Hoist,
};
use crate::rc::laws::is_temp;
use crate::rc::rename::next_count;
use crate::types::{heap, Ty};

verus! {

/// Whether nothing in `e`, lambdas aside, binds `x`.
pub open spec fn absent(e: Node, x: Seq<char>) -> bool
    decreases e,
{
    match e {
        Node::Let { name, value, next, .. } => name != x && absent(*value, x) && absent(*next, x),
        Node::Release { next, .. } => absent(*next, x),
        Node::Retain { value } => absent(*value, x),
        Node::Throw { value } => absent(*value, x),
        Node::Question { value, .. } => absent(*value, x),
        Node::Call { callee, args, .. } => absent(*callee, x) && absent_all(args, x),
        Node::Platform { args, .. } => absent_all(args, x),
        Node::Intrinsic { args, .. } => absent_all(args, x),
        Node::TailSelfCall { args, .. } => absent_all(args, x),
        Node::Array { elems, .. } => absent_all(elems, x),
        Node::EnumValue { payload, .. } => absent_all(payload, x),
        Node::RecordValue { fields, .. } => absent_all(fields, x),
        Node::FieldAccess { target, .. } => absent(*target, x),
        Node::CharFromCode(value) => absent(*value, x),
        Node::StringFromChar(value) => absent(*value, x),
        Node::Binary { left, right, .. } => absent(*left, x) && absent(*right, x),
        Node::Concat { left, right } => absent(*left, x) && absent(*right, x),
        Node::If { cond, then, els, .. } => absent(*cond, x) && absent(*then, x) && absent(*els, x),
        Node::Match { scrutinee, arms, .. } => absent(*scrutinee, x) && arms_absent(arms, x),
        Node::Try { body, arms, err_name, .. } => absent(*body, x) && arms_absent(arms, x)
            && err_name != Some(x),
        Node::Panic { message } => absent(*message, x),
        _ => true,
    }
}

/// [`absent`] of every expression of a list.
pub open spec fn absent_all(s: Seq<Node>, x: Seq<char>) -> bool
    decreases s,
{
    s.len() == 0 || (absent_all(s.drop_last(), x) && absent(s.last(), x))
}

/// [`absent`] of an arm.
pub open spec fn arm_absent(arm: ArmNode, x: Seq<char>) -> bool
    decreases arm,
{
    (match arm.guard {
        Some(guard) => absent(*guard, x),
        None => true,
    }) && absent(*arm.body, x)
}

/// [`absent`] of every arm of a list.
pub open spec fn arms_absent(s: Seq<ArmNode>, x: Seq<char>) -> bool
    decreases s,
{
    s.len() == 0 || (arms_absent(s.drop_last(), x) && arm_absent(s.last(), x))
}

pub proof fn lemma_all_absent(s: Seq<Node>, x: Seq<char>)
    ensures
        absent_all(s, x) <==> forall|i: int| 0 <= i < s.len() ==> absent(#[trigger] s[i], x),
    decreases s.len(),
{
    if s.len() > 0 {
        let t = s.drop_last();
        lemma_all_absent(t, x);
        if absent_all(s, x) {
            assert forall|i: int| 0 <= i < s.len() implies absent(#[trigger] s[i], x) by {
                if i < t.len() {
                    assert(s[i] == t[i]);
                }
            }
        }
        if forall|i: int| 0 <= i < s.len() ==> absent(#[trigger] s[i], x) {
            assert forall|i: int| 0 <= i < t.len() implies absent(#[trigger] t[i], x) by {
                assert(t[i] == s[i]);
            }
            assert(absent(s[s.len() - 1], x));
        }
    }
}

pub proof fn lemma_jumps_absent(e: Node, y: Seq<char>, ty: Ty, x: Seq<char>)
    requires
        absent(e, x),
    ensures
        absent(release_jumps(e, y, ty), x),
    decreases e,
{
    reveal(release_jumps);
    reveal(release_arm_jump);
    reveal(release_arm_jumps);
    match e {
        Node::Let { name, value, next, .. } => {
            lemma_value_absent(*value, crate::rc::insert::hands_on(*next, name), y, ty, x);
            lemma_jumps_absent(*next, y, ty, x);
        },
        Node::Release { next, .. } => lemma_jumps_absent(*next, y, ty, x),
        Node::If { then, els, .. } => {
            lemma_jumps_absent(*then, y, ty, x);
            lemma_jumps_absent(*els, y, ty, x);
        },
        Node::Match { arms, .. } => lemma_arm_jumps_absent(arms, y, ty, x),
        Node::Try { arms, .. } => lemma_arm_jumps_absent(arms, y, ty, x),
        _ => {
            reveal_with_fuel(absent, 2);
        },
    }
}

pub proof fn lemma_value_absent(value: Node, handed_on: bool, y: Seq<char>, ty: Ty, x: Seq<char>)
    requires
        absent(value, x),
    ensures
        absent(release_value_jumps(value, handed_on, y, ty), x),
    decreases value,
{
    reveal(release_jumps);
    reveal(release_arm_jump);
    reveal(release_arm_jumps);
    if let Node::Try { arms, .. } = value {
        lemma_arm_jumps_absent(arms, y, ty, x);
    }
}

proof fn lemma_arm_jump_absent(arm: ArmNode, y: Seq<char>, ty: Ty, x: Seq<char>)
    requires
        arm_absent(arm, x),
    ensures
        arm_absent(release_arm_jump(arm, y, ty), x),
    decreases arm,
{
    reveal(release_jumps);
    reveal(release_arm_jump);
    reveal(release_arm_jumps);
    lemma_jumps_absent(*arm.body, y, ty, x);
}

pub proof fn lemma_arm_jumps_absent(s: Seq<ArmNode>, y: Seq<char>, ty: Ty, x: Seq<char>)
    requires
        arms_absent(s, x),
    ensures
        arms_absent(release_arm_jumps(s, y, ty), x),
    decreases s,
{
    reveal(release_jumps);
    reveal(release_arm_jump);
    reveal(release_arm_jumps);
    if s.len() > 0 {
        lemma_arm_jumps_absent(s.drop_last(), y, ty, x);
        lemma_arm_jump_absent(s.last(), y, ty, x);
        let init = release_arm_jumps(s.drop_last(), y, ty);
        assert(init.push(release_arm_jump(s.last(), y, ty)).drop_last() =~= init);
    }
}

pub proof fn lemma_tails_absent(n: u64, e: Node, y: Seq<char>, ty: Ty, x: Seq<char>)
    requires
        absent(e, x),
        !is_temp(x),
    ensures
        absent(release_tails(n, e, y, ty).to, x),
    decreases e,
{
    reveal(release_tails);
    reveal(release_arm_tail);
    reveal(release_arm_tails);
    reveal(release_after);
    assert(is_temp(temp_name(n)));
    match e {
        Node::Let { name, value, next, .. } => {
            lemma_value_absent(*value, crate::rc::insert::hands_on(*next, name), y, ty, x);
            lemma_tails_absent(n, *next, y, ty, x);
        },
        Node::Release { next, .. } => lemma_tails_absent(n, *next, y, ty, x),
        Node::If { then, els, .. } => {
            lemma_tails_absent(n, *then, y, ty, x);
            lemma_tails_absent(release_tails(n, *then, y, ty).next, *els, y, ty, x);
        },
        Node::Match { arms, .. } => lemma_arm_tails_absent(n, arms, y, ty, x),
        Node::Try { .. } => {
            lemma_value_absent(e, true, y, ty, x);
            let leaf = release_value_jumps(e, true, y, ty);
            assert(release_tails(n, e, y, ty) == release_after(n, leaf, y, ty)) by {
                reveal(release_jumps);
                reveal(release_arm_jump);
                reveal(release_arm_jumps);
            }
            reveal_with_fuel(absent, 4);
        },
        _ => {
            reveal_with_fuel(absent, 4);
        },
    }
}

proof fn lemma_arm_tail_absent(n: u64, arm: ArmNode, y: Seq<char>, ty: Ty, x: Seq<char>)
    requires
        arm_absent(arm, x),
        !is_temp(x),
    ensures
        arm_absent(release_arm_tail(n, arm, y, ty).to, x),
    decreases arm,
{
    reveal(release_tails);
    reveal(release_arm_tail);
    reveal(release_arm_tails);
    lemma_tails_absent(n, *arm.body, y, ty, x);
}

proof fn lemma_arm_tails_absent(n: u64, s: Seq<ArmNode>, y: Seq<char>, ty: Ty, x: Seq<char>)
    requires
        arms_absent(s, x),
        !is_temp(x),
    ensures
        arms_absent(release_arm_tails(n, s, y, ty).to, x),
    decreases s,
{
    reveal(release_tails);
    reveal(release_arm_tail);
    reveal(release_arm_tails);
    if s.len() > 0 {
        lemma_arm_tails_absent(n, s.drop_last(), y, ty, x);
        let init = release_arm_tails(n, s.drop_last(), y, ty);
        lemma_arm_tail_absent(init.next, s.last(), y, ty, x);
        let last = release_arm_tail(init.next, s.last(), y, ty);
        assert(init.to.push(last.to).drop_last() =~= init.to);
    }
}

/// Whether the values of hoisted operands do not bind `x`, nor do the operands.
spec fn hoists_absent(s: Seq<Hoist>, x: Seq<char>) -> bool {
    forall|i: int|
        0 <= i < s.len() ==> is_temp((#[trigger] s[i]).name) && absent(s[i].value, x)
}

proof fn lemma_bind_absent(s: Seq<Hoist>, body: Node, x: Seq<char>)
    requires
        hoists_absent(s, x),
        absent(body, x),
        !is_temp(x),
    ensures
        absent(bind_all(s, body), x),
    decreases s.len(),
{
    reveal(bind_all);
    if s.len() > 0 {
        let h = s.last();
        let t = s.drop_last();
        assert(is_temp(s[s.len() - 1].name));
        assert forall|i: int| 0 <= i < t.len() implies is_temp((#[trigger] t[i]).name) && absent(
            t[i].value,
            x,
        ) by {
            assert(t[i] == s[i]);
        }
        lemma_bind_absent(
            t,
            Node::Let {
                name: h.name,
                value_ty: h.ty,
                value: Box::new(h.value),
                next: Box::new(body),
            },
            x,
        );
    }
}

pub proof fn lemma_release_absent(s: Seq<Hoist>, body: Node, x: Seq<char>)
    requires
        absent(body, x),
    ensures
        absent(release_all(s, body), x),
    decreases s.len(),
{
    reveal(release_all);
    if s.len() > 0 {
        lemma_release_absent(s.drop_last(), body, x);
    }
}

proof fn lemma_wrap_absent(n: u64, s: Seq<Hoist>, node: Node, x: Seq<char>)
    requires
        hoists_absent(s, x),
        absent(node, x),
        !is_temp(x),
    ensures
        absent(wrap_node(n, s, node).to, x),
{
    reveal(wrap_node);
    if any_release(s) {
        let name = temp_name(n);
        let ty = node_ty(node);
        let var = Node::Var { name, ty };
        assert(is_temp(name));
        lemma_release_absent(s, var, x);
        lemma_bind_absent(
            s,
            Node::Let {
                name,
                value_ty: ty,
                value: Box::new(node),
                next: Box::new(release_all(s, var)),
            },
            x,
        );
    } else {
        lemma_bind_absent(s, node, x);
    }
}

proof fn lemma_operands_absent(n: u64, e: Node, k: nat, x: Seq<char>)
    requires
        k <= operands_of(e).len(),
        forall|i: int| 0 <= i < operands_of(e).len() ==> absent(#[trigger] operands_of(e)[i], x),
        !is_temp(x),
    ensures
        hoists_absent(rewrite_operands(n, e, k).hoisted, x),
        rewrite_operands(n, e, k).ops.len() == k,
        forall|i: int|
            0 <= i < k ==> absent(#[trigger] rewrite_operands(n, e, k).ops[i], x),
    decreases e, k + 1,
{
    if k > 0 {
        lemma_operands_absent(n, e, (k - 1) as nat, x);
        let init = rewrite_operands(n, e, (k - 1) as nat);
        let arg = operands_of(e)[k - 1];
        assert(absent(arg, x));
        lemma_owned_absent(init.next, arg, x);
        let o = rewrite_operand(init.next, e, k - 1);
        if let Some(h) = o.hoist {
            assert(is_temp(h.name));
            assert(absent(h.value, x));
        }
        let all = rewrite_operands(n, e, k);
        assert forall|i: int| 0 <= i < k implies absent(#[trigger] all.ops[i], x) by {
            if i < k - 1 {
                assert(all.ops[i] == init.ops[i]);
            }
        }
    }
}

proof fn lemma_atom_absent(n: u64, arg: Node, x: Seq<char>)
    requires
        absent(arg, x),
        !is_temp(x),
    ensures
        atomize_one(n, arg).hoist matches Some(h) ==> is_temp(h.name) && absent(h.value, x),
        absent(atomize_one(n, arg).op, x),
    decreases arg, operands_of(arg).len() + 4,
{
    lemma_owned_absent(n, arg, x);
    let v = own(n, arg);
    assert(is_temp(temp_name(v.next)));
}

proof fn lemma_atoms_absent(n: u64, args: Seq<Node>, x: Seq<char>)
    requires
        absent_all(args, x),
        !is_temp(x),
    ensures
        hoists_absent(atomize(n, args).hoisted, x),
        absent_all(atomize(n, args).ops, x),
    decreases args, 0nat,
{
    if args.len() > 0 {
        lemma_atoms_absent(n, args.drop_last(), x);
        let init = atomize(n, args.drop_last());
        lemma_atom_absent(init.next, args.last(), x);
        let o = atomize_one(init.next, args.last());
        let ops = init.ops.push(o.op);
        assert(ops.drop_last() =~= init.ops);
        assert(ops.last() == o.op);
        let all = add_hoist(init.hoisted, o.hoist);
        assert(hoists_absent(all, x)) by {
            assert forall|i: int| 0 <= i < all.len() implies is_temp((#[trigger] all[i]).name)
                && absent(all[i].value, x) by {
                if i < init.hoisted.len() {
                    assert(all[i] == init.hoisted[i]);
                }
            }
        }
        assert(atomize(n, args).ops == ops);
        assert(atomize(n, args).hoisted == all);
    }
}

proof fn lemma_match_arm_absent(n: u64, arm: ArmNode, x: Seq<char>)
    requires
        arm_absent(arm, x),
        !is_temp(x),
    ensures
        arm_absent(own_match_arm(n, arm).to, x),
    decreases arm, 0nat,
{
    match arm.guard {
        Some(guard) => {
            lemma_owned_absent(n, *guard, x);
            lemma_owned_absent(own(n, *guard).next, *arm.body, x);
        },
        None => lemma_owned_absent(n, *arm.body, x),
    }
}

proof fn lemma_match_arms_absent(n: u64, s: Seq<ArmNode>, x: Seq<char>)
    requires
        arms_absent(s, x),
        !is_temp(x),
    ensures
        arms_absent(own_match_arms(n, s).to, x),
    decreases s, 0nat,
{
    if s.len() > 0 {
        lemma_match_arms_absent(n, s.drop_last(), x);
        let init = own_match_arms(n, s.drop_last());
        lemma_match_arm_absent(init.next, s.last(), x);
        let last = own_match_arm(init.next, s.last());
        assert(init.to.push(last.to).drop_last() =~= init.to);
    }
}

proof fn lemma_catch_arm_absent(n: u64, arm: ArmNode, err: Seq<char>, x: Seq<char>)
    requires
        arm_absent(arm, x),
        !is_temp(x),
    ensures
        arm_absent(own_catch_arm(n, arm, err).to, x),
    decreases arm, 0nat,
{
    let b = own(n, *arm.body);
    lemma_owned_absent(n, *arm.body, x);
    match arm.guard {
        Some(guard) => {
            lemma_owned_absent(b.next, *guard, x);
            lemma_tails_absent(own(b.next, *guard).next, b.to, err, caught_ty(), x);
        },
        None => lemma_tails_absent(b.next, b.to, err, caught_ty(), x),
    }
}

proof fn lemma_catch_arms_absent(n: u64, s: Seq<ArmNode>, err: Seq<char>, x: Seq<char>)
    requires
        arms_absent(s, x),
        !is_temp(x),
    ensures
        arms_absent(own_catch_arms(n, s, err).to, x),
    decreases s, 0nat,
{
    if s.len() > 0 {
        lemma_catch_arms_absent(n, s.drop_last(), err, x);
        let init = own_catch_arms(n, s.drop_last(), err);
        lemma_catch_arm_absent(init.next, s.last(), err, x);
        let last = own_catch_arm(init.next, s.last(), err);
        assert(init.to.push(last.to).drop_last() =~= init.to);
    }
}

proof fn lemma_call_absent(n: u64, e: Node, x: Seq<char>)
    requires
        e is Call,
        absent(e, x),
        !is_temp(x),
    ensures
        absent(own_call(n, e).to, x),
    decreases e, operands_of(e).len() + 2,
{
    if let Node::Call { callee, args, ret } = e {
        lemma_all_absent(args, x);
        let r = rewrite_operands(n, e, args.len());
        lemma_operands_absent(n, e, args.len(), x);
        lemma_all_absent(r.ops, x);
        if *callee is FunctionRef || *callee is Var {
            let direct = Node::Call { callee, args: r.ops, ret };
            assert(absent(direct, x));
            lemma_wrap_absent(r.next, r.hoisted, direct, x);
        } else {
            let ty = node_ty(*callee);
            let v = own(r.next, *callee);
            lemma_owned_absent(r.next, *callee, x);
            let name = temp_name(v.next);
            let all = seq![Hoist { name, ty, value: v.to, release: true }] + r.hoisted;
            assert(is_temp(name));
            assert forall|i: int| 0 <= i < all.len() implies is_temp((#[trigger] all[i]).name)
                && absent(all[i].value, x) by {
                if i > 0 {
                    assert(all[i] == r.hoisted[i - 1]);
                }
            }
            let called = Node::Var { name, ty };
            assert(absent(called, x));
            let call = Node::Call { callee: Box::new(called), args: r.ops, ret };
            assert(absent(call, x));
            lemma_wrap_absent(next_count(v.next), all, call, x);
        }
    }
}

pub proof fn lemma_built_absent(e: Node, ops: Seq<Node>, x: Seq<char>)
    requires
        ops.len() == operands_of(e).len(),
        forall|i: int| 0 <= i < ops.len() ==> absent(#[trigger] ops[i], x),
        !(e is Call),
        e is Intrinsic || e is Platform || e is Binary || e is Concat || e is Array
            || e is EnumValue || e is RecordValue || e is FieldAccess || e is CharFromCode
            || e is StringFromChar,
    ensures
        absent(with_operands(e, ops), x),
{
    lemma_all_absent(ops, x);
    if ops.len() > 0 {
        assert(absent(ops[0], x));
    }
    if ops.len() > 1 {
        assert(absent(ops[1], x));
    }
}

proof fn lemma_taken_absent(e: Node, x: Seq<char>)
    requires
        absent(e, x),
        e is Intrinsic || e is Platform || e is Binary || e is Concat || e is Array
            || e is EnumValue || e is RecordValue || e is FieldAccess || e is CharFromCode
            || e is StringFromChar,
    ensures
        forall|i: int| 0 <= i < operands_of(e).len() ==> absent(#[trigger] operands_of(e)[i], x),
{
    match e {
        Node::Binary { .. } => {},
        Node::Concat { .. } => {},
        Node::FieldAccess { .. } => {},
        Node::CharFromCode(_) => {},
        Node::StringFromChar(_) => {},
        _ => lemma_all_absent(operands_of(e), x),
    }
}

/// The owned form of an expression binds nothing but what the expression binds,
/// and temporaries.
pub proof fn lemma_owned_absent(n: u64, e: Node, x: Seq<char>)
    requires
        absent(e, x),
        !is_temp(x),
    ensures
        absent(own(n, e).to, x),
    decreases e, operands_of(e).len() + 3,
{
    match e {
        Node::Var { .. } => {
            reveal_with_fuel(absent, 2);
        },
        Node::Let { name, value_ty, value, next } => {
            let v = own(n, *value);
            let b = own(v.next, *next);
            lemma_owned_absent(n, *value, x);
            lemma_owned_absent(v.next, *next, x);
            if heap(value_ty) {
                lemma_tails_absent(b.next, b.to, name, value_ty, x);
            }
        },
        Node::Call { .. } => {
            lemma_call_absent(n, e, x);
            assert(own(n, e) == own_call(n, e));
        },
        Node::TailSelfCall { args, ty } => {
            let r = atomize(n, args);
            lemma_atoms_absent(n, args, x);
            lemma_bind_absent(r.hoisted, Node::TailSelfCall { args: r.ops, ty }, x);
        },
        Node::Intrinsic { .. } | Node::Platform { .. } | Node::Binary { .. } | Node::Concat { .. }
        | Node::Array { .. } | Node::EnumValue { .. } | Node::RecordValue { .. }
        | Node::FieldAccess { .. } | Node::CharFromCode(_) | Node::StringFromChar(_) => {
            lemma_taken_absent(e, x);
            let k = operands_of(e).len();
            let r = rewrite_operands(n, e, k);
            lemma_operands_absent(n, e, k, x);
            lemma_built_absent(e, r.ops, x);
            lemma_wrap_absent(r.next, r.hoisted, with_operands(e, r.ops), x);
        },
        Node::If { cond, then, els, .. } => {
            let c = own(n, *cond);
            let t = own(c.next, *then);
            lemma_owned_absent(n, *cond, x);
            lemma_owned_absent(c.next, *then, x);
            lemma_owned_absent(t.next, *els, x);
        },
        Node::Match { scrutinee, arms, ty } => {
            let a = own_match_arms(n, arms);
            lemma_match_arms_absent(n, arms, x);
            assert(own(n, e) == own_match(n, e));
            if !(*scrutinee is Var) {
                let sty = node_ty(*scrutinee);
                let v = own(a.next, *scrutinee);
                lemma_owned_absent(a.next, *scrutinee, x);
                let name = temp_name(v.next);
                assert(is_temp(name));
                lemma_arm_tails_absent(next_count(v.next), a.to, name, sty, x);
                let read = Node::Var { name, ty: sty };
                assert(absent(read, x));
                let inner = Node::Match {
                    scrutinee: Box::new(read),
                    arms: release_arm_tails(next_count(v.next), a.to, name, sty).to,
                    ty,
                };
                assert(absent(inner, x));
            }
        },
        Node::Try { body, arms, .. } => {
            let err = temp_name(n);
            assert(is_temp(err));
            lemma_catch_arms_absent(next_count(n), arms, err, x);
            lemma_owned_absent(own_catch_arms(next_count(n), arms, err).next, *body, x);
        },
        Node::Question { value, .. } => lemma_owned_absent(n, *value, x),
        Node::Throw { value } => {
            let v = own(n, *value);
            lemma_owned_absent(n, *value, x);
            let name = temp_name(v.next);
            assert(is_temp(name));
            let ty = node_ty(v.to);
            let read = Node::Var { name, ty };
            assert(absent(read, x));
            let thrown = Node::Throw { value: Box::new(read) };
            assert(absent(thrown, x));
        },
        Node::Panic { message } => {
            if !(*message is Var) {
                lemma_owned_absent(n, *message, x);
            }
        },
        _ => {},
    }
}

pub proof fn lemma_params_absent(n: u64, params: Seq<Bind>, body: Node, x: Seq<char>)
    requires
        absent(body, x),
        !is_temp(x),
    ensures
        absent(release_params(n, params, body).to, x),
    decreases params.len(),
{
    reveal(release_params);
    if params.len() > 0 {
        lemma_params_absent(n, params.drop_last(), body, x);
        let init = release_params(n, params.drop_last(), body);
        let p = params.last();
        if heap(p.ty) {
            lemma_tails_absent(init.next, init.to, p.name, p.ty, x);
        }
    }
}

/// The owned form of a body binds nothing but what the body binds, and
/// temporaries.
pub proof fn lemma_body_absent(n: u64, params: Seq<Bind>, body: Node, x: Seq<char>)
    requires
        absent(body, x),
        !is_temp(x),
    ensures
        absent(own_body(n, params, body).to, x),
{
    lemma_owned_absent(n, body, x);
    let o = own(n, body);
    lemma_params_absent(o.next, params, o.to, x);
}

pub proof fn lemma_still_visible(vis: Seq<Seq<char>>, name: Seq<char>, x: Seq<char>)
    requires
        vis.contains(x),
    ensures
        vis.push(name).contains(x),
{
    let k = choose|k: int| 0 <= k < vis.len() && vis[k] == x;
    assert(vis.push(name)[k] == x);
}

proof fn lemma_fields_keep(vis: Seq<Seq<char>>, s: Seq<Option<Bind>>, x: Seq<char>)
    requires
        vis.contains(x),
    ensures
        field_vis(vis, s).contains(x),
    decreases s.len(),
{
    if s.len() > 0 {
        lemma_fields_keep(vis, s.drop_last(), x);
        if let Some(f) = s.last() {
            lemma_still_visible(field_vis(vis, s.drop_last()), f.name, x);
        }
    }
}

pub proof fn lemma_pattern_keeps(vis: Seq<Seq<char>>, p: Pat, x: Seq<char>)
    requires
        vis.contains(x),
    ensures
        pattern_vis(vis, p).contains(x),
{
    match p {
        Pat::Variant { bindings, .. } => lemma_fields_keep(vis, bindings, x),
        Pat::Wildcard { binding } => {
            if let Some(f) = binding {
                lemma_still_visible(vis, f.name, x);
            }
        },
    }
}

/// Where binders are apart, a visible name is not bound again.
pub proof fn visible_names_are_not_bound(e: Node, vis: Seq<Seq<char>>, x: Seq<char>)
    requires
        apart(e, vis),
        vis.contains(x),
    ensures
        absent(e, x),
    decreases e,
{
    match e {
        Node::Let { name, value, next, .. } => {
            visible_names_are_not_bound(*value, vis, x);
            lemma_still_visible(vis, name, x);
            visible_names_are_not_bound(*next, vis.push(name), x);
        },
        Node::Release { next, .. } => visible_names_are_not_bound(*next, vis, x),
        Node::Retain { value } => visible_names_are_not_bound(*value, vis, x),
        Node::Throw { value } => visible_names_are_not_bound(*value, vis, x),
        Node::Question { value, .. } => visible_names_are_not_bound(*value, vis, x),
        Node::Call { callee, args, .. } => {
            visible_names_are_not_bound(*callee, vis, x);
            lemma_not_bound_all(args, vis, x);
        },
        Node::Platform { args, .. } => lemma_not_bound_all(args, vis, x),
        Node::Intrinsic { args, .. } => lemma_not_bound_all(args, vis, x),
        Node::TailSelfCall { args, .. } => lemma_not_bound_all(args, vis, x),
        Node::Array { elems, .. } => lemma_not_bound_all(elems, vis, x),
        Node::EnumValue { payload, .. } => lemma_not_bound_all(payload, vis, x),
        Node::RecordValue { fields, .. } => lemma_not_bound_all(fields, vis, x),
        Node::FieldAccess { target, .. } => visible_names_are_not_bound(*target, vis, x),
        Node::CharFromCode(value) => visible_names_are_not_bound(*value, vis, x),
        Node::StringFromChar(value) => visible_names_are_not_bound(*value, vis, x),
        Node::Binary { left, right, .. } => {
            visible_names_are_not_bound(*left, vis, x);
            visible_names_are_not_bound(*right, vis, x);
        },
        Node::Concat { left, right } => {
            visible_names_are_not_bound(*left, vis, x);
            visible_names_are_not_bound(*right, vis, x);
        },
        Node::If { cond, then, els, .. } => {
            visible_names_are_not_bound(*cond, vis, x);
            visible_names_are_not_bound(*then, vis, x);
            visible_names_are_not_bound(*els, vis, x);
        },
        Node::Match { scrutinee, arms, .. } => {
            visible_names_are_not_bound(*scrutinee, vis, x);
            lemma_not_bound_arms(arms, vis, x);
        },
        Node::Try { body, arms, .. } => {
            visible_names_are_not_bound(*body, vis, x);
            lemma_not_bound_arms(arms, vis, x);
        },
        Node::Panic { message } => visible_names_are_not_bound(*message, vis, x),
        _ => {},
    }
}

proof fn lemma_not_bound_all(s: Seq<Node>, vis: Seq<Seq<char>>, x: Seq<char>)
    requires
        apart_all(s, vis),
        vis.contains(x),
    ensures
        absent_all(s, x),
    decreases s,
{
    if s.len() > 0 {
        lemma_not_bound_all(s.drop_last(), vis, x);
        visible_names_are_not_bound(s.last(), vis, x);
    }
}

proof fn lemma_not_bound_arm(arm: ArmNode, vis: Seq<Seq<char>>, x: Seq<char>)
    requires
        apart_arm(arm, vis),
        vis.contains(x),
    ensures
        arm_absent(arm, x),
    decreases arm,
{
    lemma_pattern_keeps(vis, arm.pattern, x);
    let inner = pattern_vis(vis, arm.pattern);
    if let Some(guard) = arm.guard {
        visible_names_are_not_bound(*guard, inner, x);
    }
    visible_names_are_not_bound(*arm.body, inner, x);
}

proof fn lemma_not_bound_arms(s: Seq<ArmNode>, vis: Seq<Seq<char>>, x: Seq<char>)
    requires
        apart_arms(s, vis),
        vis.contains(x),
    ensures
        arms_absent(s, x),
    decreases s,
{
    if s.len() > 0 {
        lemma_not_bound_arms(s.drop_last(), vis, x);
        lemma_not_bound_arm(s.last(), vis, x);
    }
}

} // verus!
