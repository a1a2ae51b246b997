//! In a managed program, every heap value that a `let` or a parameter of a lambda
//! binds is settled at its place, and every temporary that holds one is settled or
//! handed on.

use vstd::prelude::*;

use crate::ir::{ArmNode, FnNode, Node};
use crate::rc::apart::{binders, renamed_binders_are_apart, suffixes_within};
use crate::rc::elide::{elided_body, uses};
use crate::rc::fresh::{
    is_apart_fn, lemma_numbers, lemma_numbers_before, numbers_of, scopes_of_a_function_are_apart,
};
use crate::rc::laws::{is_temp, passes};
use crate::rc::moves::{is_way, retains, settles, tally, ways_pass};
use crate::rc::once::{
    binders_of, is_written_fn, lemma_managed_at, lemma_renamed, lemma_renamed_at, owned_at,
    renamed_at,
};
use crate::rc::owned::{
    all_once, arm_once, arms_once, every_binding_is_released_once, owned_once,
    params_once,
};
use crate::rc::place::{
    arm_part, at, bare, bindings_are_settled_in_place, is_owner, is_kept, is_settled,
    is_unchanged, item, part,
};
use crate::rc::rename::{bind_params, Scope, Suffixes};
use crate::rc::settle::parameters_are_settled;
use crate::rc::spent::{
    all_temps_spent, arm_temp_spent, arm_temps_spent, temporaries_are_spent, temps_spent,
};
use crate::rc::{manage_fns, managed, rename_fns};
use crate::types::heap;

verus! {

proof fn lemma_bare_once(e: Node)
    requires
        owned_once(e),
    ensures
        owned_once(bare(e)),
    decreases e,
{
    match e {
        Node::Release { next, .. } => lemma_bare_once(*next),
        Node::Retain { value } => lemma_bare_once(*value),
        _ => {},
    }
}

proof fn lemma_item_once(s: Seq<Node>, i: nat)
    requires
        all_once(s),
    ensures
        item(s, i) matches Some(c) ==> owned_once(c),
    decreases s.len(),
{
    if s.len() > 0 {
        lemma_item_once(s.drop_last(), i);
    }
}

proof fn lemma_arm_part_once(s: Seq<ArmNode>, i: nat)
    requires
        arms_once(s),
    ensures
        arm_part(s, i) matches Some(c) ==> owned_once(c),
    decreases s.len(),
{
    if s.len() > 0 {
        lemma_arm_part_once(s.drop_last(), i);
        assert(arm_once(s.last()));
    }
}

proof fn lemma_part_once(e: Node, i: nat)
    requires
        owned_once(e),
    ensures
        part(e, i) matches Some(c) ==> owned_once(c),
{
    match e {
        Node::Call { args, .. } => {
            if i > 0 {
                lemma_item_once(args, (i - 1) as nat);
            }
        },
        Node::Platform { args, .. } => lemma_item_once(args, i),
        Node::Intrinsic { args, .. } => lemma_item_once(args, i),
        Node::TailSelfCall { args, .. } => lemma_item_once(args, i),
        Node::Array { elems, .. } => lemma_item_once(elems, i),
        Node::EnumValue { payload, .. } => lemma_item_once(payload, i),
        Node::RecordValue { fields, .. } => lemma_item_once(fields, i),
        Node::Match { arms, .. } => {
            if i > 0 {
                lemma_arm_part_once(arms, (i - 1) as nat);
            }
        },
        Node::Try { arms, .. } => {
            if i > 0 {
                lemma_arm_part_once(arms, (i - 1) as nat);
            }
        },
        _ => {},
    }
}

/// What holds of every `let` holds of the one at a place.
proof fn lemma_once_at(e: Node, path: Seq<nat>)
    requires
        owned_once(e),
    ensures
        at(e, path) matches Some(c) ==> owned_once(c),
    decreases path.len(),
{
    lemma_bare_once(e);
    if path.len() > 0 {
        lemma_part_once(bare(e), path[0]);
        if let Some(c) = part(bare(e), path[0]) {
            lemma_once_at(c, path.drop_first());
        }
    }
}

pub proof fn lemma_renamed_is_apart(p: Seq<FnNode>, j: int)
    requires
        0 <= j < p.len(),
        forall|k: int| 0 <= k < p.len() ==> is_written_fn(#[trigger] p[k]),
        binders_of(p) <= u64::MAX,
    ensures
        is_apart_fn(renamed_at(p, j)),
        rename_fns(Map::empty(), p).to.len() == p.len(),
{
    let none: Suffixes = Map::empty();
    let used = lemma_renamed_at(none, p, j);
    let b = choose|b: nat|
        #[trigger] suffixes_within(used, b) && b + p[j].params.len() + binders(p[j].body)
            <= u64::MAX;
    let f = p[j];
    assert(is_written_fn(p[j]));
    renamed_binders_are_apart(used, f, b);
    let scope: Scope = Seq::empty();
    let r = bind_params(used, scope, f.params);
    lemma_renamed(r.used, r.scope, f.body);
}

/// Where the `let` of a heap value, or a lambda, stands in a managed program.
pub proof fn lemma_kept_at(p: Seq<FnNode>, j: int, path: Seq<nat>)
    requires
        0 <= j < p.len(),
        forall|k: int| 0 <= k < p.len() ==> is_written_fn(#[trigger] p[k]),
        binders_of(p) <= u64::MAX,
        numbers_of(rename_fns(Map::empty(), p).to) <= u64::MAX,
        is_owner(at(owned_at(p, j), path)),
    ensures
        managed(p).len() == p.len(),
        is_kept(at(owned_at(p, j), path), at(managed(p)[j].body, path)),
        temps_spent(owned_at(p, j)),
{
    let q = rename_fns(Map::empty(), p).to;
    lemma_renamed_is_apart(p, j);
    assert forall|k: int| 0 <= k < q.len() implies is_apart_fn(#[trigger] q[k]) by {
        lemma_renamed_is_apart(p, k);
        assert(q[k] == renamed_at(p, k));
    }
    let before = q.take(j);
    assert forall|k: int| 0 <= k < before.len() implies is_apart_fn(#[trigger] before[k]) by {
        assert(before[k] == q[k]);
    }
    lemma_numbers_before(q, j);
    lemma_numbers(0, before);
    let n = manage_fns(0, before).next;
    let f = renamed_at(p, j);
    scopes_of_a_function_are_apart(n, f);
    temporaries_are_spent(n, f);
    lemma_managed_at(0, q, j);
    bindings_are_settled_in_place(f.params, owned_at(p, j), path);
}

/// In every function of a managed program, every heap value that a `let` of the
/// program binds is bound at the same place before and after last uses are moves.
/// Before, its scope releases it once on every path; after, it is released once or
/// moved once, and never both, on every way through its scope, jumps out of catch
/// arms included. The names are those of a written program, and numbers for renamed
/// binders and for temporaries do not run out.
pub proof fn bindings_are_settled_at_their_places(p: Seq<FnNode>, j: int, path: Seq<nat>)
    requires
        0 <= j < p.len(),
        forall|k: int| 0 <= k < p.len() ==> is_written_fn(#[trigger] p[k]),
        binders_of(p) <= u64::MAX,
        numbers_of(rename_fns(Map::empty(), p).to) <= u64::MAX,
        at(owned_at(p, j), path) matches Some(Node::Let { name, value_ty, .. }) && heap(value_ty)
            && !is_temp(name),
    ensures
        managed(p).len() == p.len(),
        at(owned_at(p, j), path) matches Some(Node::Let { name, value_ty, next, .. }) && at(
            managed(p)[j].body,
            path,
        ) matches Some(Node::Let { name: n, value_ty: t, next: left, .. }) && n == name && t
            == value_ty && passes(*next, name, 1) && is_settled(name, *next, *left),
{
    every_binding_is_released_once(p, j);
    lemma_once_at(owned_at(p, j), path);
    lemma_kept_at(p, j, path);
}

/// In every function of a managed program, every lambda stands at the same place
/// before and after last uses are moves, with the same parameters. Before, its body
/// releases each heap parameter once on every path; after, the parameter is released
/// once or moved once, and never both, on every way through the body, jumps out of
/// catch arms included. The names are those of a written program, and numbers for
/// renamed binders and for temporaries do not run out.
pub proof fn lambda_parameters_are_settled_at_their_places(
    p: Seq<FnNode>,
    j: int,
    path: Seq<nat>,
    i: int,
)
    requires
        0 <= j < p.len(),
        forall|k: int| 0 <= k < p.len() ==> is_written_fn(#[trigger] p[k]),
        binders_of(p) <= u64::MAX,
        numbers_of(rename_fns(Map::empty(), p).to) <= u64::MAX,
        at(owned_at(p, j), path) matches Some(Node::Fn { params, .. }) && 0 <= i < params.len()
            && heap(params[i].ty),
    ensures
        managed(p).len() == p.len(),
        at(owned_at(p, j), path) matches Some(Node::Fn { params, body, .. }) && at(
            managed(p)[j].body,
            path,
        ) matches Some(Node::Fn { params: q, body: left, .. }) && q == params && passes(
            *body,
            params[i].name,
            1,
        ) && is_settled(params[i].name, *body, *left),
{
    every_binding_is_released_once(p, j);
    lemma_once_at(owned_at(p, j), path);
    lemma_kept_at(p, j, path);
    if let Some(Node::Fn { params, body, .. }) = at(owned_at(p, j), path) {
        assert(params_once(params, *body));
        let left = elided_body(params, *body);
        assert forall|w: Seq<nat>| #[trigger] is_way(*body, w, false) implies is_way(
            left,
            w,
            false,
        ) && settles(tally(*body, params[i].name, w), tally(left, params[i].name, w)) by {
            parameters_are_settled(params, *body, i, w);
        }
    }
}

/// Whether what is left of a scope reads `x` once, without a retain, and releases it
/// on no way through `scope`.
pub open spec fn is_handed_on(x: Seq<char>, scope: Node, left: Node) -> bool {
    &&& uses(left, x) == 1
    &&& retains(left, x) == 0
    &&& forall|w: Seq<nat>| #[trigger]
        is_way(scope, w, false) ==> is_way(left, w, false) && tally(left, x, w).releases == 0
}

/// In every function of a managed program, every temporary that holds a heap value
/// is bound at the same place before and after last uses are moves. There either it
/// is released once or moved once, and never both, on every way through its scope,
/// jumps out of catch arms included; or the scope reads it once, without a retain,
/// and releases it on no way. The names are those of a written program, and numbers
/// for renamed binders and for temporaries do not run out.
pub proof fn temporaries_are_spent_at_their_places(p: Seq<FnNode>, j: int, path: Seq<nat>)
    requires
        0 <= j < p.len(),
        forall|k: int| 0 <= k < p.len() ==> is_written_fn(#[trigger] p[k]),
        binders_of(p) <= u64::MAX,
        numbers_of(rename_fns(Map::empty(), p).to) <= u64::MAX,
        at(owned_at(p, j), path) matches Some(Node::Let { name, value_ty, .. }) && heap(value_ty)
            && is_temp(name),
    ensures
        managed(p).len() == p.len(),
        at(owned_at(p, j), path) matches Some(Node::Let { name, value_ty, next, .. }) && at(
            managed(p)[j].body,
            path,
        ) matches Some(Node::Let { name: n, value_ty: t, next: left, .. }) && n == name && t
            == value_ty && (is_settled(name, *next, *left) || is_handed_on(name, *next, *left)),
{
    let e = owned_at(p, j);
    lemma_kept_at(p, j, path);
    lemma_spent_at(e, path);
    if let Some(Node::Let { name, next, .. }) = at(e, path) {
        if let Some(Node::Let { next: left, .. }) = at(managed(p)[j].body, path) {
            if !passes(*next, name, 1) {
                assert(is_unchanged(name, *next, *left));
                assert forall|w: Seq<nat>| #[trigger] is_way(*next, w, false) implies is_way(
                    *left,
                    w,
                    false,
                ) && tally(*left, name, w).releases == 0 by {
                    ways_pass(*next, name, 0, w);
                }
            }
        }
    }
}

proof fn lemma_bare_spent(e: Node)
    requires
        temps_spent(e),
    ensures
        temps_spent(bare(e)),
    decreases e,
{
    match e {
        Node::Release { next, .. } => lemma_bare_spent(*next),
        Node::Retain { value } => lemma_bare_spent(*value),
        _ => {},
    }
}

proof fn lemma_item_spent(s: Seq<Node>, i: nat)
    requires
        all_temps_spent(s),
    ensures
        item(s, i) matches Some(c) ==> temps_spent(c),
    decreases s.len(),
{
    if s.len() > 0 {
        lemma_item_spent(s.drop_last(), i);
    }
}

proof fn lemma_arm_part_spent(s: Seq<ArmNode>, i: nat)
    requires
        arm_temps_spent(s),
    ensures
        arm_part(s, i) matches Some(c) ==> temps_spent(c),
    decreases s.len(),
{
    if s.len() > 0 {
        lemma_arm_part_spent(s.drop_last(), i);
        assert(arm_temp_spent(s.last()));
    }
}

proof fn lemma_part_spent(e: Node, i: nat)
    requires
        temps_spent(e),
    ensures
        part(e, i) matches Some(c) ==> temps_spent(c),
{
    match e {
        Node::Call { args, .. } => {
            if i > 0 {
                lemma_item_spent(args, (i - 1) as nat);
            }
        },
        Node::Platform { args, .. } => lemma_item_spent(args, i),
        Node::Intrinsic { args, .. } => lemma_item_spent(args, i),
        Node::TailSelfCall { args, .. } => lemma_item_spent(args, i),
        Node::Array { elems, .. } => lemma_item_spent(elems, i),
        Node::EnumValue { payload, .. } => lemma_item_spent(payload, i),
        Node::RecordValue { fields, .. } => lemma_item_spent(fields, i),
        Node::Match { arms, .. } => {
            if i > 0 {
                lemma_arm_part_spent(arms, (i - 1) as nat);
            }
        },
        Node::Try { arms, .. } => {
            if i > 0 {
                lemma_arm_part_spent(arms, (i - 1) as nat);
            }
        },
        _ => {},
    }
}

pub proof fn lemma_spent_at(e: Node, path: Seq<nat>)
    requires
        temps_spent(e),
    ensures
        at(e, path) matches Some(c) ==> temps_spent(c),
    decreases path.len(),
{
    lemma_bare_spent(e);
    if path.len() > 0 {
        lemma_part_spent(bare(e), path[0]);
        if let Some(c) = part(bare(e), path[0]) {
            lemma_spent_at(c, path.drop_first());
        }
    }
}

} // verus!
