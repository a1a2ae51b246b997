//! Every heap value that a `let` of a program binds is released exactly once on
//! every path through its scope, wherever the `let` stands.

use vstd::prelude::*;

use crate::ir::{node_ty, ArmNode, Bind, FnNode, Node};
use crate::rc::absent::{
    absent, arm_absent, arms_absent, lemma_jumps_absent, lemma_owned_absent, lemma_params_absent,
    lemma_tails_absent, visible_names_are_not_bound,
};
use crate::rc::apart::{
    apart, apart_all, apart_arm, apart_arms, binders, param_vis, params_apart, pattern_vis,
    renamed_binders_are_apart, suffixes_within,
};
use crate::rc::elide::elided;
use crate::rc::fresh::{lemma_param_absent, lemma_params_unnumbered};
use crate::rc::insert::{
    add_hoist, any_release, atomize, atomize_one, bind_all, caught_ty, hands_on, operands_of, own,
    own_body, own_call, own_catch_arm, own_catch_arms, own_match, own_match_arm, own_match_arms,
    release_after, release_all, release_arm_jump, release_arm_jumps, release_arm_tail,
    release_arm_tails, release_jumps, release_params, release_tails, release_value_jumps,
    rewrite_operand, rewrite_operands, temp_name, with_operands, wrap_node, Hoist,
};
use crate::rc::laws::{
    arm_passes, arms_pass, bindings_are_released_once, is_temp, lemma_hands_on,
    other_arm_jumps_are_left_alone, other_releases_are_left_alone,
    other_value_jumps_are_left_alone, parameters_are_released_once, passes,
};
use crate::rc::moves::{is_way, settles, tally};
use crate::rc::once::{
    binders_of, is_written_fn, lemma_clear, lemma_not_bound, lemma_params, lemma_renamed,
    lemma_renamed_at, owned_at, renamed_at, unmanaged, unmanaged_all, unmanaged_arm,
    unmanaged_arms,
};
use crate::rc::rename::{bind_params, next_count, Scope, Suffixes};
use crate::rc::settle::bindings_are_settled;
use crate::rc::{manage_fns, rename_fns};
use crate::types::{heap, Ty};

verus! {

/// Whether every heap parameter of a function is released exactly once on every path
/// through its body, and nothing in the body has its name.
pub open spec fn params_once(params: Seq<Bind>, body: Node) -> bool {
    &&& forall|j: int, k: int|
        0 <= j < k < params.len() ==> (#[trigger] params[j]).name != (#[trigger] params[k]).name
    &&& forall|i: int|
        0 <= i < params.len() && heap((#[trigger] params[i]).ty) ==> passes(body, params[i].name, 1)
            && absent(body, params[i].name)
}

/// Whether every heap value that a `let` in `e` binds, temporaries aside, is
/// released exactly once on every path through its scope, jumps out of catch arms
/// included, and nothing in the scope has its name; and so is every heap parameter
/// of a lambda in `e`.
pub open spec fn owned_once(e: Node) -> bool
    decreases e,
{
    match e {
        Node::Let { name, value_ty, value, next } => {
            &&& heap(value_ty) && !is_temp(name) ==> passes(*next, name, 1) && absent(*next, name)
            &&& owned_once(*value)
            &&& owned_once(*next)
        },
        Node::Fn { params, body, .. } => params_once(params, *body) && owned_once(*body),
        Node::Release { next, .. } => owned_once(*next),
        Node::Retain { value } => owned_once(*value),
        Node::Throw { value } => owned_once(*value),
        Node::Question { value, .. } => owned_once(*value),
        Node::Call { callee, args, .. } => owned_once(*callee) && all_once(args),
        Node::Platform { args, .. } => all_once(args),
        Node::Intrinsic { args, .. } => all_once(args),
        Node::TailSelfCall { args, .. } => all_once(args),
        Node::Array { elems, .. } => all_once(elems),
        Node::EnumValue { payload, .. } => all_once(payload),
        Node::RecordValue { fields, .. } => all_once(fields),
        Node::FieldAccess { target, .. } => owned_once(*target),
        Node::CharFromCode(value) => owned_once(*value),
        Node::StringFromChar(value) => owned_once(*value),
        Node::Binary { left, right, .. } => owned_once(*left) && owned_once(*right),
        Node::Concat { left, right } => owned_once(*left) && owned_once(*right),
        Node::If { cond, then, els, .. } => owned_once(*cond) && owned_once(*then) && owned_once(
            *els,
        ),
        Node::Match { scrutinee, arms, .. } => owned_once(*scrutinee) && arms_once(arms),
        Node::Try { body, arms, .. } => owned_once(*body) && arms_once(arms),
        Node::Panic { message } => owned_once(*message),
        _ => true,
    }
}

/// [`owned_once`] of every expression of a list.
pub open spec fn all_once(s: Seq<Node>) -> bool
    decreases s,
{
    s.len() == 0 || (all_once(s.drop_last()) && owned_once(s.last()))
}

/// [`owned_once`] of an arm.
pub open spec fn arm_once(arm: ArmNode) -> bool
    decreases arm,
{
    (match arm.guard {
        Some(guard) => owned_once(*guard),
        None => true,
    }) && owned_once(*arm.body)
}

/// [`owned_once`] of every arm of a list.
pub open spec fn arms_once(s: Seq<ArmNode>) -> bool
    decreases s,
{
    s.len() == 0 || (arms_once(s.drop_last()) && arm_once(s.last()))
}

proof fn lemma_all_once(s: Seq<Node>)
    ensures
        all_once(s) <==> forall|i: int| 0 <= i < s.len() ==> owned_once(#[trigger] s[i]),
    decreases s.len(),
{
    if s.len() > 0 {
        let t = s.drop_last();
        lemma_all_once(t);
        if all_once(s) {
            assert forall|i: int| 0 <= i < s.len() implies owned_once(#[trigger] s[i]) by {
                if i < t.len() {
                    assert(s[i] == t[i]);
                }
            }
        }
        if forall|i: int| 0 <= i < s.len() ==> owned_once(#[trigger] s[i]) {
            assert forall|i: int| 0 <= i < t.len() implies owned_once(#[trigger] t[i]) by {
                assert(t[i] == s[i]);
            }
            assert(owned_once(s[s.len() - 1]));
        }
    }
}

pub proof fn lemma_jumps_pass(e: Node, y: Seq<char>, ty: Ty, x: Seq<char>, k: int)
    requires
        x != y,
        passes(e, x, k),
    ensures
        passes(release_jumps(e, y, ty), x, k),
    decreases e,
{
    reveal(release_jumps);
    reveal(release_arm_jump);
    reveal(release_arm_jumps);
    match e {
        Node::Let { name, value, next, .. } => {
            lemma_hands_on(0, *next, y, ty, name);
            if hands_on(*next, name) {
                other_value_jumps_are_left_alone(*value, y, ty, x, k);
            }
            lemma_jumps_pass(*next, y, ty, x, k);
        },
        Node::Release { name, next, .. } => lemma_jumps_pass(
            *next,
            y,
            ty,
            x,
            if name == x {
                k - 1
            } else {
                k
            },
        ),
        Node::If { then, els, .. } => {
            lemma_jumps_pass(*then, y, ty, x, k);
            lemma_jumps_pass(*els, y, ty, x, k);
        },
        Node::Match { arms, .. } => lemma_arm_jumps_pass(arms, y, ty, x, k),
        Node::Try { arms, .. } => other_arm_jumps_are_left_alone(arms, y, ty, x, k),
        _ => {
            reveal_with_fuel(passes, 2);
        },
    }
}

proof fn lemma_arm_jump_passes(arm: ArmNode, y: Seq<char>, ty: Ty, x: Seq<char>, k: int)
    requires
        x != y,
        arm_passes(arm, x, k),
    ensures
        arm_passes(release_arm_jump(arm, y, ty), x, k),
    decreases arm,
{
    reveal(release_jumps);
    reveal(release_arm_jump);
    reveal(release_arm_jumps);
    lemma_jumps_pass(*arm.body, y, ty, x, k);
}

proof fn lemma_arm_jumps_pass(s: Seq<ArmNode>, y: Seq<char>, ty: Ty, x: Seq<char>, k: int)
    requires
        x != y,
        arms_pass(s, x, k),
    ensures
        arms_pass(release_arm_jumps(s, y, ty), x, k),
    decreases s,
{
    reveal(release_jumps);
    reveal(release_arm_jump);
    reveal(release_arm_jumps);
    if s.len() > 0 {
        lemma_arm_jumps_pass(s.drop_last(), y, ty, x, k);
        lemma_arm_jump_passes(s.last(), y, ty, x, k);
        let init = release_arm_jumps(s.drop_last(), y, ty);
        assert(init.push(release_arm_jump(s.last(), y, ty)).drop_last() =~= init);
    }
}

proof fn lemma_jumps_once(e: Node, y: Seq<char>, ty: Ty)
    requires
        owned_once(e),
        is_temp(y) || absent(e, y),
    ensures
        owned_once(release_jumps(e, y, ty)),
    decreases e,
{
    reveal(release_jumps);
    reveal(release_arm_jump);
    reveal(release_arm_jumps);
    match e {
        Node::Let { name, value_ty, value, next } => {
            if heap(value_ty) && !is_temp(name) {
                lemma_jumps_pass(*next, y, ty, name, 1);
                lemma_jumps_absent(*next, y, ty, name);
            }
            lemma_value_once(*value, hands_on(*next, name), y, ty);
            lemma_jumps_once(*next, y, ty);
        },
        Node::Release { next, .. } => lemma_jumps_once(*next, y, ty),
        Node::If { then, els, .. } => {
            lemma_jumps_once(*then, y, ty);
            lemma_jumps_once(*els, y, ty);
        },
        Node::Match { arms, .. } => lemma_arm_jumps_once(arms, y, ty),
        Node::Try { arms, .. } => lemma_arm_jumps_once(arms, y, ty),
        _ => {
            reveal_with_fuel(owned_once, 2);
        },
    }
}

proof fn lemma_value_once(value: Node, handed_on: bool, y: Seq<char>, ty: Ty)
    requires
        owned_once(value),
        is_temp(y) || absent(value, y),
    ensures
        owned_once(release_value_jumps(value, handed_on, y, ty)),
    decreases value,
{
    reveal(release_jumps);
    reveal(release_arm_jump);
    reveal(release_arm_jumps);
    if let Node::Try { arms, .. } = value {
        lemma_arm_jumps_once(arms, y, ty);
    }
}

proof fn lemma_arm_jump_once(arm: ArmNode, y: Seq<char>, ty: Ty)
    requires
        arm_once(arm),
        is_temp(y) || arm_absent(arm, y),
    ensures
        arm_once(release_arm_jump(arm, y, ty)),
    decreases arm,
{
    reveal(release_jumps);
    reveal(release_arm_jump);
    reveal(release_arm_jumps);
    lemma_jumps_once(*arm.body, y, ty);
}

proof fn lemma_arm_jumps_once(s: Seq<ArmNode>, y: Seq<char>, ty: Ty)
    requires
        arms_once(s),
        is_temp(y) || arms_absent(s, y),
    ensures
        arms_once(release_arm_jumps(s, y, ty)),
    decreases s,
{
    reveal(release_jumps);
    reveal(release_arm_jump);
    reveal(release_arm_jumps);
    if s.len() > 0 {
        lemma_arm_jumps_once(s.drop_last(), y, ty);
        lemma_arm_jump_once(s.last(), y, ty);
        let init = release_arm_jumps(s.drop_last(), y, ty);
        assert(init.push(release_arm_jump(s.last(), y, ty)).drop_last() =~= init);
    }
}

proof fn lemma_tails_once(n: u64, e: Node, y: Seq<char>, ty: Ty)
    requires
        owned_once(e),
        is_temp(y) || absent(e, y),
    ensures
        owned_once(release_tails(n, e, y, ty).to),
    decreases e,
{
    reveal(release_tails);
    reveal(release_arm_tail);
    reveal(release_arm_tails);
    reveal(release_after);
    assert(is_temp(temp_name(n)));
    match e {
        Node::Let { name, value_ty, value, next } => {
            if heap(value_ty) && !is_temp(name) {
                other_releases_are_left_alone(n, *next, y, ty, name, 1);
                lemma_tails_absent(n, *next, y, ty, name);
            }
            lemma_value_once(*value, hands_on(*next, name), y, ty);
            lemma_tails_once(n, *next, y, ty);
        },
        Node::Release { next, .. } => lemma_tails_once(n, *next, y, ty),
        Node::If { then, els, .. } => {
            lemma_tails_once(n, *then, y, ty);
            lemma_tails_once(release_tails(n, *then, y, ty).next, *els, y, ty);
        },
        Node::Match { arms, .. } => lemma_arm_tails_once(n, arms, y, ty),
        Node::Try { .. } => {
            lemma_value_once(e, true, y, ty);
            let leaf = release_value_jumps(e, true, y, ty);
            assert(release_tails(n, e, y, ty) == release_after(n, leaf, y, ty)) by {
                reveal(release_jumps);
                reveal(release_arm_jump);
                reveal(release_arm_jumps);
            }
            reveal_with_fuel(owned_once, 4);
        },
        _ => {
            reveal_with_fuel(owned_once, 4);
        },
    }
}

proof fn lemma_arm_tail_once(n: u64, arm: ArmNode, y: Seq<char>, ty: Ty)
    requires
        arm_once(arm),
        is_temp(y) || arm_absent(arm, y),
    ensures
        arm_once(release_arm_tail(n, arm, y, ty).to),
    decreases arm,
{
    reveal(release_tails);
    reveal(release_arm_tail);
    reveal(release_arm_tails);
    lemma_tails_once(n, *arm.body, y, ty);
}

proof fn lemma_arm_tails_once(n: u64, s: Seq<ArmNode>, y: Seq<char>, ty: Ty)
    requires
        arms_once(s),
        is_temp(y) || arms_absent(s, y),
    ensures
        arms_once(release_arm_tails(n, s, y, ty).to),
    decreases s,
{
    reveal(release_tails);
    reveal(release_arm_tail);
    reveal(release_arm_tails);
    if s.len() > 0 {
        lemma_arm_tails_once(n, s.drop_last(), y, ty);
        let init = release_arm_tails(n, s.drop_last(), y, ty);
        lemma_arm_tail_once(init.next, s.last(), y, ty);
        let last = release_arm_tail(init.next, s.last(), y, ty);
        assert(init.to.push(last.to).drop_last() =~= init.to);
    }
}

/// [`owned_once`] of the values of hoisted operands, which are temporaries.
spec fn hoists_once(s: Seq<Hoist>) -> bool {
    forall|i: int|
        0 <= i < s.len() ==> is_temp((#[trigger] s[i]).name) && owned_once(s[i].value)
}

proof fn lemma_bind_once(s: Seq<Hoist>, body: Node)
    requires
        hoists_once(s),
        owned_once(body),
    ensures
        owned_once(bind_all(s, body)),
    decreases s.len(),
{
    reveal(bind_all);
    if s.len() > 0 {
        let h = s.last();
        let t = s.drop_last();
        assert(is_temp(s[s.len() - 1].name));
        assert forall|i: int| 0 <= i < t.len() implies is_temp((#[trigger] t[i]).name) && owned_once(
            t[i].value) by {
            assert(t[i] == s[i]);
        }
        lemma_bind_once(
            t,
            Node::Let {
                name: h.name,
                value_ty: h.ty,
                value: Box::new(h.value),
                next: Box::new(body),
            });
    }
}

proof fn lemma_release_once(s: Seq<Hoist>, body: Node)
    requires
        owned_once(body),
    ensures
        owned_once(release_all(s, body)),
    decreases s.len(),
{
    reveal(release_all);
    if s.len() > 0 {
        lemma_release_once(s.drop_last(), body);
    }
}

proof fn lemma_wrap_once(n: u64, s: Seq<Hoist>, node: Node)
    requires
        hoists_once(s),
        owned_once(node),
    ensures
        owned_once(wrap_node(n, s, node).to),
{
    reveal(wrap_node);
    if any_release(s) {
        let name = temp_name(n);
        let ty = node_ty(node);
        let var = Node::Var { name, ty };
        assert(is_temp(name));
        lemma_release_once(s, var);
        lemma_bind_once(
            s,
            Node::Let {
                name,
                value_ty: ty,
                value: Box::new(node),
                next: Box::new(release_all(s, var)),
            });
    } else {
        lemma_bind_once(s, node);
    }
}

/// Whether `e` has neither a retain nor a release, and its binders are apart.
pub open spec fn is_bare(e: Node, vis: Seq<Seq<char>>) -> bool {
    unmanaged(e) && apart(e, vis)
}

pub proof fn lemma_all_bare(s: Seq<Node>, vis: Seq<Seq<char>>)
    requires
        unmanaged_all(s),
        apart_all(s, vis),
    ensures
        forall|i: int| 0 <= i < s.len() ==> is_bare(#[trigger] s[i], vis),
    decreases s.len(),
{
    if s.len() > 0 {
        lemma_all_bare(s.drop_last(), vis);
        assert forall|i: int| 0 <= i < s.len() implies is_bare(#[trigger] s[i], vis) by {
            if i < s.len() - 1 {
                assert(s[i] == s.drop_last()[i]);
            }
        }
    }
}

proof fn lemma_params_once(n: u64, params: Seq<Bind>, body: Node)
    requires
        owned_once(body),
        forall|i: int|
            0 <= i < params.len() ==> is_temp((#[trigger] params[i]).name) || absent(
                body,
                params[i].name,
            ),
    ensures
        owned_once(release_params(n, params, body).to),
    decreases params.len(),
{
    reveal(release_params);
    if params.len() > 0 {
        let front = params.drop_last();
        assert forall|i: int| 0 <= i < front.len() implies is_temp((#[trigger] front[i]).name)
            || absent(body, front[i].name) by {
            assert(front[i] == params[i]);
        }
        lemma_params_once(n, front, body);
        let init = release_params(n, front, body);
        let p = params[params.len() - 1];
        if heap(p.ty) {
            if !is_temp(p.name) {
                lemma_params_absent(n, front, body, p.name);
            }
            lemma_tails_once(init.next, init.to, p.name, p.ty);
        }
    }
}

proof fn lemma_operand_once(n: u64, e: Node, i: int, vis: Seq<Seq<char>>)
    requires
        0 <= i < operands_of(e).len(),
        is_bare(operands_of(e)[i], vis),
    ensures
        rewrite_operand(n, e, i).hoist matches Some(h) ==> is_temp(h.name) && owned_once(h.value),
        owned_once(rewrite_operand(n, e, i).op),
    decreases e, 0nat,
{
    let arg = operands_of(e)[i];
    lemma_owned_once(n, arg, vis);
    let v = own(n, arg);
    assert(is_temp(temp_name(v.next)));
    assert(is_temp(temp_name(n)));
    if arg is Var || arg is String {
        assert(owned_once(arg));
    }
}

proof fn lemma_operands_once(n: u64, e: Node, k: nat, vis: Seq<Seq<char>>)
    requires
        k <= operands_of(e).len(),
        forall|i: int|
            0 <= i < operands_of(e).len() ==> is_bare(#[trigger] operands_of(e)[i], vis),
    ensures
        hoists_once(rewrite_operands(n, e, k).hoisted),
        rewrite_operands(n, e, k).ops.len() == k,
        forall|i: int|
            0 <= i < k ==> owned_once(#[trigger] rewrite_operands(n, e, k).ops[i]),
    decreases e, k + 1,
{
    if k > 0 {
        lemma_operands_once(n, e, (k - 1) as nat, vis);
        let init = rewrite_operands(n, e, (k - 1) as nat);
        assert(is_bare(operands_of(e)[k - 1], vis));
        lemma_operand_once(init.next, e, k - 1, vis);
        let o = rewrite_operand(init.next, e, k - 1);
        let hoisted = add_hoist(init.hoisted, o.hoist);
        assert(hoists_once(hoisted)) by {
            assert forall|i: int| 0 <= i < hoisted.len() implies is_temp(
                (#[trigger] hoisted[i]).name,
            ) && owned_once(hoisted[i].value) by {
                if i < init.hoisted.len() {
                    assert(hoisted[i] == init.hoisted[i]);
                }
            }
        }
        let all = rewrite_operands(n, e, k);
        assert(all.hoisted == hoisted && all.ops == init.ops.push(o.op));
        assert forall|i: int| 0 <= i < k implies owned_once(#[trigger] all.ops[i]) by {
            if i < k - 1 {
                assert(all.ops[i] == init.ops[i]);
            }
        }
    }
}

proof fn lemma_atom_once(n: u64, arg: Node, vis: Seq<Seq<char>>)
    requires
        is_bare(arg, vis),
    ensures
        atomize_one(n, arg).hoist matches Some(h) ==> is_temp(h.name) && owned_once(h.value),
        owned_once(atomize_one(n, arg).op),
    decreases arg, operands_of(arg).len() + 4,
{
    lemma_owned_once(n, arg, vis);
    let v = own(n, arg);
    assert(is_temp(temp_name(v.next)));
}

proof fn lemma_atoms_once(n: u64, args: Seq<Node>, vis: Seq<Seq<char>>)
    requires
        unmanaged_all(args),
        apart_all(args, vis),
    ensures
        hoists_once(atomize(n, args).hoisted),
        all_once(atomize(n, args).ops),
    decreases args, 0nat,
{
    if args.len() > 0 {
        lemma_atoms_once(n, args.drop_last(), vis);
        let init = atomize(n, args.drop_last());
        lemma_atom_once(init.next, args.last(), vis);
        let o = atomize_one(init.next, args.last());
        let ops = init.ops.push(o.op);
        assert(ops.drop_last() =~= init.ops);
        assert(ops.last() == o.op);
        let all = add_hoist(init.hoisted, o.hoist);
        assert(hoists_once(all)) by {
            assert forall|i: int| 0 <= i < all.len() implies is_temp((#[trigger] all[i]).name)
                && owned_once(all[i].value) by {
                if i < init.hoisted.len() {
                    assert(all[i] == init.hoisted[i]);
                }
            }
        }
        assert(atomize(n, args).ops == ops);
        assert(atomize(n, args).hoisted == all);
    }
}

proof fn lemma_match_arm_once(n: u64, arm: ArmNode, vis: Seq<Seq<char>>)
    requires
        unmanaged_arm(arm),
        apart_arm(arm, vis),
    ensures
        arm_once(own_match_arm(n, arm).to),
    decreases arm, 0nat,
{
    let inner = pattern_vis(vis, arm.pattern);
    match arm.guard {
        Some(guard) => {
            lemma_owned_once(n, *guard, inner);
            lemma_owned_once(own(n, *guard).next, *arm.body, inner);
        },
        None => lemma_owned_once(n, *arm.body, inner),
    }
}

proof fn lemma_match_arms_once(n: u64, s: Seq<ArmNode>, vis: Seq<Seq<char>>)
    requires
        unmanaged_arms(s),
        apart_arms(s, vis),
    ensures
        arms_once(own_match_arms(n, s).to),
    decreases s, 0nat,
{
    if s.len() > 0 {
        lemma_match_arms_once(n, s.drop_last(), vis);
        let init = own_match_arms(n, s.drop_last());
        lemma_match_arm_once(init.next, s.last(), vis);
        let last = own_match_arm(init.next, s.last());
        assert(init.to.push(last.to).drop_last() =~= init.to);
    }
}

proof fn lemma_catch_arm_once(n: u64, arm: ArmNode, err: Seq<char>, vis: Seq<Seq<char>>)
    requires
        unmanaged_arm(arm),
        apart_arm(arm, vis),
        is_temp(err),
    ensures
        arm_once(own_catch_arm(n, arm, err).to),
    decreases arm, 0nat,
{
    let inner = pattern_vis(vis, arm.pattern);
    let b = own(n, *arm.body);
    lemma_owned_once(n, *arm.body, inner);
    match arm.guard {
        Some(guard) => {
            lemma_owned_once(b.next, *guard, inner);
            lemma_tails_once(own(b.next, *guard).next, b.to, err, caught_ty());
        },
        None => lemma_tails_once(b.next, b.to, err, caught_ty()),
    }
}

proof fn lemma_catch_arms_once(n: u64, s: Seq<ArmNode>, err: Seq<char>, vis: Seq<Seq<char>>)
    requires
        unmanaged_arms(s),
        apart_arms(s, vis),
        is_temp(err),
    ensures
        arms_once(own_catch_arms(n, s, err).to),
    decreases s, 0nat,
{
    if s.len() > 0 {
        lemma_catch_arms_once(n, s.drop_last(), err, vis);
        let init = own_catch_arms(n, s.drop_last(), err);
        lemma_catch_arm_once(init.next, s.last(), err, vis);
        let last = own_catch_arm(init.next, s.last(), err);
        assert(init.to.push(last.to).drop_last() =~= init.to);
    }
}

proof fn lemma_call_once(n: u64, e: Node, vis: Seq<Seq<char>>)
    requires
        e is Call,
        is_bare(e, vis),
    ensures
        owned_once(own_call(n, e).to),
    decreases e, operands_of(e).len() + 2,
{
    if let Node::Call { callee, args, ret } = e {
        lemma_all_bare(args, vis);
        let r = rewrite_operands(n, e, args.len());
        lemma_operands_once(n, e, args.len(), vis);
        lemma_all_once(r.ops);
        if *callee is FunctionRef || *callee is Var {
            assert(owned_once(*callee));
            let direct = Node::Call { callee, args: r.ops, ret };
            assert(owned_once(direct));
            lemma_wrap_once(r.next, r.hoisted, direct);
        } else {
            let ty = node_ty(*callee);
            let v = own(r.next, *callee);
            lemma_owned_once(r.next, *callee, vis);
            let name = temp_name(v.next);
            let all = seq![Hoist { name, ty, value: v.to, release: true }] + r.hoisted;
            assert(is_temp(name));
            assert forall|i: int| 0 <= i < all.len() implies is_temp((#[trigger] all[i]).name)
                && owned_once(all[i].value) by {
                if i > 0 {
                    assert(all[i] == r.hoisted[i - 1]);
                }
            }
            let called = Node::Var { name, ty };
            assert(owned_once(called));
            let call = Node::Call { callee: Box::new(called), args: r.ops, ret };
            assert(owned_once(call));
            lemma_wrap_once(next_count(v.next), all, call);
        }
    }
}

proof fn lemma_built_once(e: Node, ops: Seq<Node>)
    requires
        ops.len() == operands_of(e).len(),
        forall|i: int| 0 <= i < ops.len() ==> owned_once(#[trigger] ops[i]),
        !(e is Call),
        e is Intrinsic || e is Platform || e is Binary || e is Concat || e is Array
            || e is EnumValue || e is RecordValue || e is FieldAccess || e is CharFromCode
            || e is StringFromChar,
    ensures
        owned_once(with_operands(e, ops)),
{
    lemma_all_once(ops);
    if ops.len() > 0 {
        assert(owned_once(ops[0]));
    }
    if ops.len() > 1 {
        assert(owned_once(ops[1]));
    }
}

pub proof fn lemma_taken_bare(e: Node, vis: Seq<Seq<char>>)
    requires
        is_bare(e, vis),
        e is Intrinsic || e is Platform || e is Binary || e is Concat || e is Array
            || e is EnumValue || e is RecordValue || e is FieldAccess || e is CharFromCode
            || e is StringFromChar,
    ensures
        forall|i: int| 0 <= i < operands_of(e).len() ==> is_bare(
            #[trigger] operands_of(e)[i],
            vis,
        ),
{
    match e {
        Node::Binary { .. } => {},
        Node::Concat { .. } => {},
        Node::FieldAccess { .. } => {},
        Node::CharFromCode(_) => {},
        Node::StringFromChar(_) => {},
        _ => lemma_all_bare(operands_of(e), vis),
    }
}

proof fn lemma_owned_once(n: u64, e: Node, vis: Seq<Seq<char>>)
    requires
        is_bare(e, vis),
    ensures
        owned_once(own(n, e).to),
    decreases e, operands_of(e).len() + 3,
{
    match e {
        Node::Var { .. } => {
            reveal_with_fuel(owned_once, 2);
        },
        Node::Let { name, value_ty, value, next } => {
            let v = own(n, *value);
            let b = own(v.next, *next);
            lemma_owned_once(n, *value, vis);
            let inner = vis.push(name);
            lemma_owned_once(v.next, *next, inner);
            assert(inner[vis.len() as int] == name);
            visible_names_are_not_bound(*next, inner, name);
            if heap(value_ty) {
                if !is_temp(name) {
                    lemma_owned_absent(v.next, *next, name);
                    lemma_tails_absent(b.next, b.to, name, value_ty, name);
                    lemma_clear(*next, name);
                    lemma_not_bound(*next, name);
                    bindings_are_released_once(n, name, value_ty, *value, *next);
                }
                lemma_tails_once(b.next, b.to, name, value_ty);
            }
        },
        Node::Call { .. } => {
            lemma_call_once(n, e, vis);
            assert(own(n, e) == own_call(n, e));
        },
        Node::TailSelfCall { args, ty } => {
            let r = atomize(n, args);
            lemma_atoms_once(n, args, vis);
            lemma_bind_once(r.hoisted, Node::TailSelfCall { args: r.ops, ty });
        },
        Node::Intrinsic { .. } | Node::Platform { .. } | Node::Binary { .. } | Node::Concat { .. }
        | Node::Array { .. } | Node::EnumValue { .. } | Node::RecordValue { .. }
        | Node::FieldAccess { .. } | Node::CharFromCode(_) | Node::StringFromChar(_) => {
            lemma_taken_bare(e, vis);
            let k = operands_of(e).len();
            let r = rewrite_operands(n, e, k);
            lemma_operands_once(n, e, k, vis);
            lemma_built_once(e, r.ops);
            lemma_wrap_once(r.next, r.hoisted, with_operands(e, r.ops));
        },
        Node::If { cond, then, els, .. } => {
            let c = own(n, *cond);
            let t = own(c.next, *then);
            lemma_owned_once(n, *cond, vis);
            lemma_owned_once(c.next, *then, vis);
            lemma_owned_once(t.next, *els, vis);
        },
        Node::Match { scrutinee, arms, ty } => {
            let a = own_match_arms(n, arms);
            lemma_match_arms_once(n, arms, vis);
            assert(own(n, e) == own_match(n, e));
            if *scrutinee is Var {
                assert(owned_once(*scrutinee));
            } else {
                let sty = node_ty(*scrutinee);
                let v = own(a.next, *scrutinee);
                lemma_owned_once(a.next, *scrutinee, vis);
                let name = temp_name(v.next);
                assert(is_temp(name));
                lemma_arm_tails_once(next_count(v.next), a.to, name, sty);
                let read = Node::Var { name, ty: sty };
                assert(owned_once(read));
                let inner = Node::Match {
                    scrutinee: Box::new(read),
                    arms: release_arm_tails(next_count(v.next), a.to, name, sty).to,
                    ty,
                };
                assert(owned_once(inner));
            }
        },
        Node::Try { body, arms, .. } => {
            let err = temp_name(n);
            assert(is_temp(err));
            lemma_catch_arms_once(next_count(n), arms, err, vis);
            lemma_owned_once(own_catch_arms(next_count(n), arms, err).next, *body, vis);
        },
        Node::Question { value, .. } => lemma_owned_once(n, *value, vis),
        Node::Throw { value } => {
            let v = own(n, *value);
            lemma_owned_once(n, *value, vis);
            let name = temp_name(v.next);
            assert(is_temp(name));
            let ty = node_ty(v.to);
            let read = Node::Var { name, ty };
            assert(owned_once(read));
            let thrown = Node::Throw { value: Box::new(read) };
            assert(owned_once(thrown));
        },
        Node::Panic { message } => {
            if *message is Var {
                assert(owned_once(*message));
            } else {
                lemma_owned_once(n, *message, vis);
            }
        },
        Node::Fn { params, body, .. } => {
            let inner = param_vis(vis, params);
            let o = own(n, *body);
            lemma_owned_once(n, *body, inner);
            lemma_params(params, vis);
            assert forall|i: int| 0 <= i < params.len() implies is_temp(
                (#[trigger] params[i]).name,
            ) || absent(o.to, params[i].name) by {
                visible_names_are_not_bound(*body, inner, params[i].name);
                if !is_temp(params[i].name) {
                    lemma_owned_absent(n, *body, params[i].name);
                }
            }
            lemma_params_once(o.next, params, o.to);
            let b = own_body(n, params, *body).to;
            assert forall|i: int| 0 <= i < params.len() && heap(
                (#[trigger] params[i]).ty,
            ) implies passes(b, params[i].name, 1) && absent(b, params[i].name) by {
                let x = params[i].name;
                lemma_params_unnumbered(params, vis, i);
                visible_names_are_not_bound(*body, inner, x);
                lemma_clear(*body, x);
                lemma_not_bound(*body, x);
                parameters_are_released_once(n, params, *body, i);
                lemma_param_absent(n, params, *body, vis, i);
            }
        },
        _ => {},
    }
}


/// The owned form of a body whose binders are apart, from each other and from the
/// parameters.
proof fn lemma_body_once(n: u64, params: Seq<Bind>, body: Node)
    requires
        unmanaged(body),
        params_apart(params, Seq::empty()),
        apart(body, param_vis(Seq::empty(), params)),
    ensures
        owned_once(own_body(n, params, body).to),
{
    let inner = param_vis(Seq::empty(), params);
    let o = own(n, body);
    lemma_owned_once(n, body, inner);
    lemma_params(params, Seq::empty());
    assert forall|i: int| 0 <= i < params.len() implies is_temp((#[trigger] params[i]).name)
        || absent(o.to, params[i].name) by {
        visible_names_are_not_bound(body, inner, params[i].name);
        if !is_temp(params[i].name) {
            lemma_owned_absent(n, body, params[i].name);
        }
    }
    lemma_params_once(o.next, params, o.to);
}

/// In every function of a managed program, every heap value that a `let` binds is
/// released exactly once on every path through its scope, wherever the `let`
/// stands, before last uses are moves, and so is every heap parameter of a lambda.
/// The names are those of a written program, and numbers for renamed binders do not
/// run out.
pub proof fn every_binding_is_released_once(p: Seq<FnNode>, j: int)
    requires
        0 <= j < p.len(),
        forall|k: int| 0 <= k < p.len() ==> is_written_fn(#[trigger] p[k]),
        binders_of(p) <= u64::MAX,
    ensures
        owned_once(owned_at(p, j)),
{
    let none: Suffixes = Map::empty();
    let q = rename_fns(none, p).to;
    let used = lemma_renamed_at(none, p, j);
    let b = choose|b: nat|
        #[trigger] suffixes_within(used, b) && b + p[j].params.len() + binders(p[j].body)
            <= u64::MAX;
    let f = p[j];
    assert(is_written_fn(p[j]));
    renamed_binders_are_apart(used, f, b);
    let scope: Scope = Seq::empty();
    let r = bind_params(used, scope, f.params);
    lemma_renamed(r.used, r.scope, f.body);
    let to = renamed_at(p, j);
    lemma_body_once(manage_fns(0, q.take(j)).next, to.params, to.body);
}

/// A heap value that such a `let` binds is released once or moved once, and never
/// both, on every way through its scope: what is left of the scope once last uses
/// are moves has the same ways, and on each of them either the release or one
/// retain less.
pub proof fn every_binding_is_settled(e: Node, w: Seq<nat>)
    requires
        owned_once(e),
        e matches Node::Let { name, value_ty, next, .. } && heap(value_ty) && !is_temp(name)
            && is_way(*next, w, false),
    ensures
        e matches Node::Let { name, next, .. } && elided(e) matches Node::Let {
            next: left,
            ..
        } && is_way(*left, w, false) && settles(tally(*next, name, w), tally(*left, name, w)),
{
    if let Node::Let { name, value_ty, value, next } = e {
        bindings_are_settled(name, value_ty, *value, *next, w);
    }
}

} // verus!
