//! Every heap parameter of a function is released or moved exactly once on every
//! way out of it, from the written program on.

use vstd::prelude::*;

use crate::ir::{ArmNode, Bind, FnNode, Node};
use crate::rc::absent::{
    absent, arm_absent, arms_absent, lemma_body_absent, lemma_still_visible,
    visible_names_are_not_bound,
};
use crate::rc::apart::{
    binders, param_vis, params_apart, plain, plain_params, renamed_binders_are_apart,
    suffixes_within,
};
use crate::rc::insert::{own_body, temp_name};
use crate::rc::laws::{
    arm_binds, arm_clear, arms_bind, arms_clear, binds, clear, is_temp,
    parameters_are_released_once, passes,
};
use crate::rc::moves::{is_way, settles, tally};
use crate::rc::rename::{
    after_bind, bind_params, rename, rename_all, rename_arm, rename_arms, rename_pattern,
    unique_name, Scope, Suffixes,
};
use crate::rc::settle::parameters_are_settled;
use crate::rc::{manage_fn, manage_fns, managed, rename_fn, rename_fns};
use crate::types::heap;

verus! {

/// Whether there is neither a retain nor a release in `e`: the form of a program
/// before reference counting.
pub open spec fn unmanaged(e: Node) -> bool
    decreases e,
{
    match e {
        Node::Retain { .. } => false,
        Node::Release { .. } => false,
        Node::Let { value, next, .. } => unmanaged(*value) && unmanaged(*next),
        Node::Fn { body, .. } => unmanaged(*body),
        Node::Throw { value } => unmanaged(*value),
        Node::Question { value, .. } => unmanaged(*value),
        Node::Call { callee, args, .. } => unmanaged(*callee) && unmanaged_all(args),
        Node::Platform { args, .. } => unmanaged_all(args),
        Node::Intrinsic { args, .. } => unmanaged_all(args),
        Node::TailSelfCall { args, .. } => unmanaged_all(args),
        Node::Array { elems, .. } => unmanaged_all(elems),
        Node::EnumValue { payload, .. } => unmanaged_all(payload),
        Node::RecordValue { fields, .. } => unmanaged_all(fields),
        Node::FieldAccess { target, .. } => unmanaged(*target),
        Node::CharFromCode(value) => unmanaged(*value),
        Node::StringFromChar(value) => unmanaged(*value),
        Node::Binary { left, right, .. } => unmanaged(*left) && unmanaged(*right),
        Node::Concat { left, right } => unmanaged(*left) && unmanaged(*right),
        Node::If { cond, then, els, .. } => unmanaged(*cond) && unmanaged(*then) && unmanaged(
            *els,
        ),
        Node::Match { scrutinee, arms, .. } => unmanaged(*scrutinee) && unmanaged_arms(arms),
        Node::Try { body, arms, .. } => unmanaged(*body) && unmanaged_arms(arms),
        Node::Panic { message } => unmanaged(*message),
        _ => true,
    }
}

/// [`unmanaged`] of every expression of a list.
pub open spec fn unmanaged_all(s: Seq<Node>) -> bool
    decreases s,
{
    s.len() == 0 || (unmanaged_all(s.drop_last()) && unmanaged(s.last()))
}

/// [`unmanaged`] of an arm.
pub open spec fn unmanaged_arm(arm: ArmNode) -> bool
    decreases arm,
{
    (match arm.guard {
        Some(guard) => unmanaged(*guard),
        None => true,
    }) && unmanaged(*arm.body)
}

/// [`unmanaged`] of every arm of a list.
pub open spec fn unmanaged_arms(s: Seq<ArmNode>) -> bool
    decreases s,
{
    s.len() == 0 || (unmanaged_arms(s.drop_last()) && unmanaged_arm(s.last()))
}

pub proof fn lemma_clear(e: Node, x: Seq<char>)
    requires
        unmanaged(e),
    ensures
        clear(e, x),
    decreases e,
{
    match e {
        Node::Let { value, next, .. } => {
            lemma_clear(*value, x);
            lemma_clear(*next, x);
        },
        Node::If { then, els, .. } => {
            lemma_clear(*then, x);
            lemma_clear(*els, x);
        },
        Node::Match { arms, .. } => lemma_arms_clear(arms, x),
        Node::Try { arms, .. } => lemma_arms_clear(arms, x),
        _ => {},
    }
}

proof fn lemma_arm_clear(arm: ArmNode, x: Seq<char>)
    requires
        unmanaged_arm(arm),
    ensures
        arm_clear(arm, x),
    decreases arm,
{
    lemma_clear(*arm.body, x);
}

proof fn lemma_arms_clear(s: Seq<ArmNode>, x: Seq<char>)
    requires
        unmanaged_arms(s),
    ensures
        arms_clear(s, x),
    decreases s,
{
    if s.len() > 0 {
        lemma_arms_clear(s.drop_last(), x);
        lemma_arm_clear(s.last(), x);
    }
}

pub proof fn lemma_renamed(used: Suffixes, scope: Scope, e: Node)
    requires
        unmanaged(e),
    ensures
        unmanaged(rename(used, scope, e).to),
    decreases e,
{
    match e {
        Node::Let { name, value, next, .. } => {
            let v = rename(used, scope, *value);
            lemma_renamed(used, scope, *value);
            let unique = unique_name(v.used, scope, name);
            lemma_renamed(after_bind(v.used, scope, name), scope.push((name, unique)), *next);
        },
        Node::Fn { params, body, .. } => {
            let b = bind_params(used, scope, params);
            lemma_renamed(b.used, b.scope, *body);
        },
        Node::Throw { value } => lemma_renamed(used, scope, *value),
        Node::Question { value, .. } => lemma_renamed(used, scope, *value),
        Node::Call { callee, args, .. } => {
            lemma_renamed(used, scope, *callee);
            lemma_renamed_all(rename(used, scope, *callee).used, scope, args);
        },
        Node::Platform { args, .. } => lemma_renamed_all(used, scope, args),
        Node::Intrinsic { args, .. } => lemma_renamed_all(used, scope, args),
        Node::TailSelfCall { args, .. } => lemma_renamed_all(used, scope, args),
        Node::Array { elems, .. } => lemma_renamed_all(used, scope, elems),
        Node::EnumValue { payload, .. } => lemma_renamed_all(used, scope, payload),
        Node::RecordValue { fields, .. } => lemma_renamed_all(used, scope, fields),
        Node::FieldAccess { target, .. } => lemma_renamed(used, scope, *target),
        Node::CharFromCode(value) => lemma_renamed(used, scope, *value),
        Node::StringFromChar(value) => lemma_renamed(used, scope, *value),
        Node::Binary { left, right, .. } => {
            lemma_renamed(used, scope, *left);
            lemma_renamed(rename(used, scope, *left).used, scope, *right);
        },
        Node::Concat { left, right } => {
            lemma_renamed(used, scope, *left);
            lemma_renamed(rename(used, scope, *left).used, scope, *right);
        },
        Node::If { cond, then, els, .. } => {
            let c = rename(used, scope, *cond);
            let t = rename(c.used, scope, *then);
            lemma_renamed(used, scope, *cond);
            lemma_renamed(c.used, scope, *then);
            lemma_renamed(t.used, scope, *els);
        },
        Node::Match { scrutinee, arms, .. } => {
            let s = rename(used, scope, *scrutinee);
            lemma_renamed(used, scope, *scrutinee);
            lemma_renamed_arms(s.used, scope, arms);
        },
        Node::Try { body, arms, .. } => {
            let b = rename(used, scope, *body);
            lemma_renamed(used, scope, *body);
            lemma_renamed_arms(b.used, scope, arms);
        },
        Node::Panic { message } => lemma_renamed(used, scope, *message),
        _ => {},
    }
}

proof fn lemma_renamed_all(used: Suffixes, scope: Scope, s: Seq<Node>)
    requires
        unmanaged_all(s),
    ensures
        unmanaged_all(rename_all(used, scope, s).to),
    decreases s,
{
    if s.len() > 0 {
        lemma_renamed_all(used, scope, s.drop_last());
        let init = rename_all(used, scope, s.drop_last());
        lemma_renamed(init.used, scope, s.last());
        let last = rename(init.used, scope, s.last());
        assert(init.to.push(last.to).drop_last() =~= init.to);
    }
}

proof fn lemma_renamed_arm(used: Suffixes, scope: Scope, arm: ArmNode)
    requires
        unmanaged_arm(arm),
    ensures
        unmanaged_arm(rename_arm(used, scope, arm).to),
    decreases arm,
{
    let p = rename_pattern(used, scope, arm.pattern);
    match arm.guard {
        Some(guard) => {
            lemma_renamed(p.used, p.scope, *guard);
            lemma_renamed(rename(p.used, p.scope, *guard).used, p.scope, *arm.body);
        },
        None => lemma_renamed(p.used, p.scope, *arm.body),
    }
}

proof fn lemma_renamed_arms(used: Suffixes, scope: Scope, s: Seq<ArmNode>)
    requires
        unmanaged_arms(s),
    ensures
        unmanaged_arms(rename_arms(used, scope, s).to),
    decreases s,
{
    if s.len() > 0 {
        lemma_renamed_arms(used, scope, s.drop_last());
        let init = rename_arms(used, scope, s.drop_last());
        lemma_renamed_arm(init.used, scope, s.last());
        let last = rename_arm(init.used, scope, s.last());
        assert(init.to.push(last.to).drop_last() =~= init.to);
    }
}

pub proof fn lemma_not_bound(e: Node, x: Seq<char>)
    requires
        absent(e, x),
    ensures
        !binds(e, x),
    decreases e,
{
    match e {
        Node::Let { value, next, .. } => {
            lemma_not_bound(*value, x);
            lemma_not_bound(*next, x);
        },
        Node::Release { next, .. } => lemma_not_bound(*next, x),
        Node::If { then, els, .. } => {
            lemma_not_bound(*then, x);
            lemma_not_bound(*els, x);
        },
        Node::Match { arms, .. } => lemma_not_bound_arms(arms, x),
        Node::Try { arms, .. } => lemma_not_bound_arms(arms, x),
        _ => {},
    }
}

proof fn lemma_not_bound_arm(arm: ArmNode, x: Seq<char>)
    requires
        arm_absent(arm, x),
    ensures
        !arm_binds(arm, x),
    decreases arm,
{
    lemma_not_bound(*arm.body, x);
}

proof fn lemma_not_bound_arms(s: Seq<ArmNode>, x: Seq<char>)
    requires
        arms_absent(s, x),
    ensures
        !arms_bind(s, x),
    decreases s,
{
    if s.len() > 0 {
        lemma_not_bound_arms(s.drop_last(), x);
        lemma_not_bound_arm(s.last(), x);
    }
}

/// Parameters that are apart are visible after all of them, and differ.
pub proof fn lemma_params(s: Seq<Bind>, vis: Seq<Seq<char>>)
    requires
        params_apart(s, vis),
    ensures
        forall|i: int| 0 <= i < s.len() ==> param_vis(vis, s).contains((#[trigger] s[i]).name),
        forall|i: int, j: int|
            0 <= i < j < s.len() ==> (#[trigger] s[i]).name != (#[trigger] s[j]).name,
    decreases s.len(),
{
    if s.len() > 0 {
        let front = s.drop_last();
        lemma_params(front, vis);
        let before = param_vis(vis, front);
        let all = param_vis(vis, s);
        assert(all[before.len() as int] == s.last().name);
        assert forall|i: int| 0 <= i < s.len() implies all.contains((#[trigger] s[i]).name) by {
            if i < front.len() {
                assert(before.contains(front[i].name));
                lemma_still_visible(before, s.last().name, s[i].name);
            }
        }
        assert forall|i: int, j: int| 0 <= i < j < s.len() implies (#[trigger] s[i]).name != (
        #[trigger] s[j]).name by {
            assert(s[i] == front[i]);
            assert(before.contains(front[i].name));
            if j < front.len() {
                assert(s[j] == front[j]);
            }
        }
    }
}

/// Whether a name can be that of no temporary: it does not begin with `$`.
pub open spec fn is_user_name(name: Seq<char>) -> bool {
    name.len() == 0 || name[0] != '$'
}

pub proof fn lemma_user_name(name: Seq<char>)
    requires
        is_user_name(name),
    ensures
        !is_temp(name),
{
    if is_temp(name) {
        let n = choose|n: u64| name == #[trigger] temp_name(n);
        reveal_strlit("$rc");
        assert(name == temp_name(n));
        assert(temp_name(n)[0] == '$');
    }
}

/// Renamed parameters are under names of the program or under numbered ones.
pub proof fn lemma_renamed_params(used: Suffixes, scope: Scope, s: Seq<Bind>, i: int)
    requires
        0 <= i < s.len(),
        is_user_name(s[i].name),
        s[i].name.len() > 0,
    ensures
        bind_params(used, scope, s).binds.len() == s.len(),
        is_user_name(bind_params(used, scope, s).binds[i].name),
        bind_params(used, scope, s).binds[i].ty == s[i].ty,
    decreases s.len(),
{
    let front = s.drop_last();
    lemma_params_len(used, scope, front);
    let r = bind_params(used, scope, front);
    if i < front.len() {
        lemma_renamed_params(used, scope, front, i);
    } else {
        let unique = unique_name(r.used, r.scope, s[i].name);
        assert(unique[0] == s[i].name[0]);
    }
}

proof fn lemma_params_len(used: Suffixes, scope: Scope, s: Seq<Bind>)
    ensures
        bind_params(used, scope, s).binds.len() == s.len(),
    decreases s.len(),
{
    if s.len() > 0 {
        lemma_params_len(used, scope, s.drop_last());
    }
}

/// Every heap parameter of a function is released exactly once on every path
/// through the function, jumps out of catch arms included, and no other parameter
/// is. The names are those of a written program, and numbers for renamed binders
/// do not run out.
pub proof fn every_heap_parameter_is_released_once(used: Suffixes, n: u64, f: FnNode, b: nat, i: int)
    requires
        0 <= i < f.params.len(),
        is_user_name(f.params[i].name),
        f.params[i].name.len() > 0,
        unmanaged(f.body),
        suffixes_within(used, b),
        plain_params(f.params),
        plain(f.body),
        b + f.params.len() + binders(f.body) <= u64::MAX,
    ensures
        ({
            let r = rename_fn(used, f).to;
            &&& r.params.len() == f.params.len()
            &&& passes(
                own_body(n, r.params, r.body).to,
                r.params[i].name,
                if heap(f.params[i].ty) {
                    1
                } else {
                    0
                },
            )
        }),
{
    let none: Scope = Seq::empty();
    let r = rename_fn(used, f).to;
    renamed_binders_are_apart(used, f, b);
    lemma_renamed_params(used, none, f.params, i);
    lemma_params(r.params, Seq::empty());
    let p = bind_params(used, none, f.params);
    lemma_renamed(p.used, p.scope, f.body);
    let x = r.params[i].name;
    lemma_clear(r.body, x);
    visible_names_are_not_bound(r.body, param_vis(Seq::empty(), r.params), x);
    lemma_not_bound(r.body, x);
    lemma_user_name(x);
    parameters_are_released_once(n, r.params, r.body, i);
}

/// Whether a function is one of a written program.
pub open spec fn is_written_fn(f: FnNode) -> bool {
    &&& forall|i: int|
        0 <= i < f.params.len() ==> is_user_name((#[trigger] f.params[i]).name)
            && f.params[i].name.len() > 0
    &&& unmanaged(f.body)
    &&& plain_params(f.params)
    &&& plain(f.body)
}

/// How many binders stand in some functions.
pub open spec fn binders_of(p: Seq<FnNode>) -> nat
    decreases p.len(),
{
    if p.len() == 0 {
        0
    } else {
        binders_of(p.drop_last()) + p.last().params.len() + binders(p.last().body)
    }
}

/// A function of a program with its binders renamed apart.
pub open spec fn renamed_at(p: Seq<FnNode>, j: int) -> FnNode {
    rename_fns(Map::empty(), p).to[j]
}

/// The body of a function of a program with every retain and release, before last
/// uses are moves.
pub open spec fn owned_at(p: Seq<FnNode>, j: int) -> Node {
    let f = renamed_at(p, j);
    own_body(manage_fns(0, rename_fns(Map::empty(), p).to.take(j)).next, f.params, f.body).to
}

pub proof fn lemma_renamed_at(used: Suffixes, p: Seq<FnNode>, j: int) -> (at: Suffixes)
    requires
        0 <= j < p.len(),
        forall|k: int| 0 <= k < p.len() ==> is_written_fn(#[trigger] p[k]),
        suffixes_within(used, 0),
        binders_of(p) <= u64::MAX,
    ensures
        rename_fns(used, p).to.len() == p.len(),
        rename_fns(used, p).to[j] == rename_fn(at, p[j]).to,
        exists|b: nat|
            #[trigger] suffixes_within(at, b) && b + p[j].params.len() + binders(p[j].body)
                <= u64::MAX,
        suffixes_within(rename_fns(used, p).used, binders_of(p)),
    decreases p.len(),
{
    let front = p.drop_last();
    assert forall|k: int| 0 <= k < front.len() implies is_written_fn(#[trigger] front[k]) by {
        assert(front[k] == p[k]);
    }
    let init = rename_fns(used, front);
    if front.len() > 0 {
        let first = lemma_renamed_at(used, front, 0);
    }
    assert(suffixes_within(init.used, binders_of(front)));
    assert(is_written_fn(p[p.len() - 1]));
    renamed_binders_are_apart(init.used, p.last(), binders_of(front));
    if j < front.len() {
        lemma_renamed_at(used, front, j)
    } else {
        init.used
    }
}

pub proof fn lemma_managed_at(n: u64, p: Seq<FnNode>, j: int)
    requires
        0 <= j < p.len(),
    ensures
        manage_fns(n, p).to.len() == p.len(),
        manage_fns(n, p).to[j] == manage_fn(manage_fns(n, p.take(j)).next, p[j]).to,
    decreases p.len(),
{
    let front = p.drop_last();
    if j < front.len() {
        lemma_managed_at(n, front, j);
        assert(front.take(j) =~= p.take(j));
    } else {
        assert(front =~= p.take(j));
        if front.len() > 0 {
            lemma_managed_at(n, front, 0);
        }
    }
    assert(manage_fns(n, front).to.len() == front.len());
}

/// In a managed program, every heap parameter of every function is released once
/// or moved once, and never both, on every way through the function, jumps out of
/// catch arms included: each way passes exactly one release before last uses are
/// moves, and is left with the release, or with one retain less in its place. The
/// names are those of a written program, and numbers for renamed binders do not
/// run out.
pub proof fn managed_parameters_are_settled(p: Seq<FnNode>, j: int, i: int, w: Seq<nat>)
    requires
        0 <= j < p.len(),
        0 <= i < p[j].params.len(),
        heap(p[j].params[i].ty),
        forall|k: int| 0 <= k < p.len() ==> is_written_fn(#[trigger] p[k]),
        binders_of(p) <= u64::MAX,
        is_way(owned_at(p, j), w, false),
    ensures
        managed(p).len() == p.len(),
        renamed_at(p, j).params.len() == p[j].params.len(),
        is_way(managed(p)[j].body, w, false),
        settles(
            tally(owned_at(p, j), renamed_at(p, j).params[i].name, w),
            tally(managed(p)[j].body, renamed_at(p, j).params[i].name, w),
        ),
{
    let none: Suffixes = Map::empty();
    let q = rename_fns(none, p).to;
    let used = lemma_renamed_at(none, p, j);
    let b = choose|b: nat|
        #[trigger] suffixes_within(used, b) && b + p[j].params.len() + binders(p[j].body)
            <= u64::MAX;
    let f = p[j];
    let r = renamed_at(p, j);
    assert(is_written_fn(p[j]));
    let n = manage_fns(0, q.take(j)).next;
    lemma_managed_at(0, q, j);
    every_heap_parameter_is_released_once(used, n, f, b, i);
    renamed_binders_are_apart(used, f, b);
    lemma_params(r.params, Seq::empty());
    lemma_renamed_params(used, Seq::empty(), f.params, i);
    let x = r.params[i].name;
    assert(param_vis(Seq::empty(), r.params).contains(x));
    visible_names_are_not_bound(r.body, param_vis(Seq::empty(), r.params), x);
    lemma_user_name(x);
    lemma_body_absent(n, r.params, r.body, x);
    parameters_are_settled(r.params, owned_at(p, j), i, w);
}

} // verus!
