//! On every way, references balance.

use vstd::prelude::*;

use crate::ir::{ArmNode, FnNode, Node};
use crate::rc::count::{
    hold_of, holds, kept, kept_arm, kept_arms, kept_on, kept_on_arm, kept_on_catch, paired,
    paired_all, paired_arm, paired_arms, paired_operand, paired_reads_are_retained_on_the_way,
    Hold,
};
use crate::rc::elide::elided_body;
use crate::rc::fresh::{
    is_apart_fn, lemma_numbers, lemma_numbers_before, numbers_of, scopes_of_a_function_are_apart,
};
use crate::rc::kept::{
    bindings_are_settled_at_their_places, lambda_parameters_are_settled_at_their_places,
    is_handed_on, lemma_kept_at, lemma_renamed_is_apart, lemma_spent_at,
};
use crate::rc::laws::{is_temp, passes};
use crate::rc::spent::is_spent;
use crate::rc::insert::hands_on;
use crate::rc::moves::{
    arm_tally, catch_tally, is_way, retains, retains_arm, retains_arms, settles, tally, ways_pass,
};
use crate::rc::once::{
    binders_of, is_written_fn, lemma_managed_at, lemma_renamed_at, lemma_renamed_params,
    lemma_user_name, managed_parameters_are_settled, owned_at, renamed_at,
};
use crate::rc::paired::lemma_body_paired;
use crate::rc::place::{arm_part, at, bare, is_as_kept, is_unchanged, item, part, scopes_apart};
use crate::rc::steady::bodies_keep_their_reads;
use crate::rc::absent::absent;
use crate::rc::{manage_fns, managed, rename_fns};
use crate::types::heap;

verus! {

/// Whether, on every way through a scope that holds one reference to `x`, this
/// reference and those that are retained are as many as those that are released and
/// those that are kept.
pub open spec fn balances(x: Seq<char>, scope: Node) -> bool {
    forall|w: Seq<nat>| #[trigger]
        is_way(scope, w, false) ==> 1 + tally(scope, x, w).retains == tally(scope, x, w).releases
            + kept_on(scope, x, w)
}

/// An expression that is paired or read in place.
spec fn is_sound(e: Node, x: Seq<char>) -> bool {
    paired(e, x) || e is Var || e is String || e is FunctionRef
}

proof fn lemma_bare_sound(e: Node, x: Seq<char>)
    requires
        is_sound(e, x),
    ensures
        is_sound(bare(e), x),
    decreases e,
{
    match e {
        Node::Release { next, .. } => lemma_bare_sound(*next, x),
        Node::Retain { value } => {
            assert(bare(*value) == *value);
        },
        _ => {},
    }
}

proof fn lemma_item_sound(h: Hold, s: Seq<Node>, i: nat, x: Seq<char>)
    requires
        paired_all(h, s, x),
    ensures
        item(s, i) matches Some(c) ==> is_sound(c, x),
    decreases s.len(),
{
    if s.len() > 0 {
        lemma_item_sound(h, s.drop_last(), i, x);
        assert(paired_operand(holds(h, s.len() - 1), s.last(), x));
        assert(is_sound(s.last(), x));
        if i < s.len() - 1 {
            assert(s.drop_last()[i as int] == s[i as int]);
        }
    }
}

proof fn lemma_arm_part_sound(s: Seq<ArmNode>, i: nat, x: Seq<char>)
    requires
        paired_arms(s, x),
    ensures
        arm_part(s, i) matches Some(c) ==> is_sound(c, x),
    decreases s.len(),
{
    if s.len() > 0 {
        lemma_arm_part_sound(s.drop_last(), i, x);
        assert(paired_arm(s.last(), x));
    }
}

proof fn lemma_part_sound(e: Node, i: nat, x: Seq<char>)
    requires
        is_sound(e, x),
        !(e is Retain) && !(e is Release),
    ensures
        part(e, i) matches Some(c) ==> is_sound(c, x),
{
    match e {
        Node::Call { args, .. } => {
            if i > 0 {
                lemma_item_sound(hold_of(e), args, (i - 1) as nat, x);
            }
        },
        Node::Platform { args, .. } => lemma_item_sound(hold_of(e), args, i, x),
        Node::Intrinsic { args, .. } => lemma_item_sound(hold_of(e), args, i, x),
        Node::TailSelfCall { args, .. } => lemma_item_sound(hold_of(e), args, i, x),
        Node::Array { elems, .. } => lemma_item_sound(hold_of(e), elems, i, x),
        Node::EnumValue { payload, .. } => lemma_item_sound(hold_of(e), payload, i, x),
        Node::RecordValue { fields, .. } => lemma_item_sound(hold_of(e), fields, i, x),
        Node::FieldAccess { target, .. } => {
            assert(paired_operand(false, *target, x));
        },
        Node::CharFromCode(value) => {
            assert(paired_operand(false, *value, x));
        },
        Node::StringFromChar(value) => {
            assert(paired_operand(false, *value, x));
        },
        Node::Binary { left, right, .. } => {
            assert(paired_operand(false, *left, x) && paired_operand(false, *right, x));
        },
        Node::Concat { left, right } => {
            assert(paired_operand(false, *left, x) && paired_operand(false, *right, x));
        },
        Node::Match { arms, .. } => {
            if i > 0 {
                lemma_arm_part_sound(arms, (i - 1) as nat, x);
            }
        },
        Node::Try { arms, .. } => {
            if i > 0 {
                lemma_arm_part_sound(arms, (i - 1) as nat, x);
            }
        },
        _ => {},
    }
}

/// What is paired is so at every place.
proof fn lemma_sound_at(e: Node, path: Seq<nat>, x: Seq<char>)
    requires
        is_sound(e, x),
    ensures
        at(e, path) matches Some(c) ==> is_sound(c, x),
    decreases path.len(),
{
    lemma_bare_sound(e, x);
    lemma_not_counted(e);
    if path.len() > 0 {
        lemma_part_sound(bare(e), path[0], x);
        if let Some(c) = part(bare(e), path[0]) {
            lemma_sound_at(c, path.drop_first(), x);
        }
    }
}

proof fn lemma_not_counted(e: Node)
    ensures
        !(bare(e) is Retain) && !(bare(e) is Release),
    decreases e,
{
    match e {
        Node::Release { next, .. } => lemma_not_counted(*next),
        Node::Retain { value } => lemma_not_counted(*value),
        _ => {},
    }
}

/// A function of a program before and after last uses are moves.
proof fn lemma_function(p: Seq<FnNode>, j: int)
    requires
        0 <= j < p.len(),
        forall|k: int| 0 <= k < p.len() ==> is_written_fn(#[trigger] p[k]),
        binders_of(p) <= u64::MAX,
        numbers_of(rename_fns(Map::empty(), p).to) <= u64::MAX,
    ensures
        managed(p).len() == p.len(),
        managed(p)[j].body == elided_body(renamed_at(p, j).params, owned_at(p, j)),
        scopes_apart(owned_at(p, j)),
        forall|i: int|
            0 <= i < renamed_at(p, j).params.len() ==> absent(
                owned_at(p, j),
                (#[trigger] renamed_at(p, j).params[i]).name,
            ),
        forall|x: Seq<char>| !is_temp(x) ==> #[trigger] paired(owned_at(p, j), x),
{
    let q = rename_fns(Map::empty(), p).to;
    lemma_renamed_is_apart(p, j);
    assert forall|k: int| 0 <= k < q.len() implies is_apart_fn(#[trigger] q[k]) by {
        lemma_renamed_is_apart(p, k);
        assert(q[k] == renamed_at(p, k));
    }
    let before = q.take(j);
    assert forall|k: int| 0 <= k < before.len() implies is_apart_fn(#[trigger] before[k]) by {
        assert(before[k] == q[k]);
    }
    lemma_numbers_before(q, j);
    lemma_numbers(0, before);
    let n = manage_fns(0, before).next;
    let f = renamed_at(p, j);
    scopes_of_a_function_are_apart(n, f);
    lemma_managed_at(0, q, j);
    assert forall|x: Seq<char>| !is_temp(x) implies #[trigger] paired(owned_at(p, j), x) by {
        lemma_body_paired(n, f.params, f.body, x);
    }
}

/// In every function of a managed program, the references to every heap value that a
/// `let` of the program binds balance: on every way through its scope, jumps out of
/// catch arms included, the one reference that is bound and those that are retained are
/// as many as those that are released and those that are kept. Kept is what is passed to
/// a call, put into an array, a variant, a record or a binding, thrown, or returned. The
/// names are those of a written program, and numbers for renamed binders and for
/// temporaries do not run out.
pub proof fn references_of_bindings_balance(p: Seq<FnNode>, j: int, path: Seq<nat>)
    requires
        0 <= j < p.len(),
        forall|k: int| 0 <= k < p.len() ==> is_written_fn(#[trigger] p[k]),
        binders_of(p) <= u64::MAX,
        numbers_of(rename_fns(Map::empty(), p).to) <= u64::MAX,
        at(owned_at(p, j), path) matches Some(Node::Let { name, value_ty, .. }) && heap(value_ty)
            && !is_temp(name),
    ensures
        managed(p).len() == p.len(),
        at(owned_at(p, j), path) matches Some(Node::Let { name, .. }) && at(
            managed(p)[j].body,
            path,
        ) matches Some(Node::Let { name: n, next: left, .. }) && n == name && balances(
            name,
            *left,
        ),
{
    bindings_are_settled_at_their_places(p, j, path);
    lemma_kept_at(p, j, path);
    lemma_function(p, j);
    if let Some(Node::Let { name, next, .. }) = at(owned_at(p, j), path) {
        if let Some(Node::Let { next: left, .. }) = at(managed(p)[j].body, path) {
            lemma_sound_at(owned_at(p, j), path, name);
            assert(paired(*next, name));
            assert forall|w: Seq<nat>| #[trigger] is_way(*left, w, false) implies 1 + tally(
                *left,
                name,
                w,
            ).retains == tally(*left, name, w).releases + kept_on(*left, name, w) by {
                assert(is_as_kept(name, *next, *left));
                assert(is_way(*next, w, false));
                paired_reads_are_retained_on_the_way(*next, name, w);
                assert(settles(tally(*next, name, w), tally(*left, name, w)));
            }
        }
    }
}

/// In a managed program, the references to every heap parameter of every function
/// balance on every way through the function.
pub proof fn references_of_parameters_balance(p: Seq<FnNode>, j: int, i: int)
    requires
        0 <= j < p.len(),
        0 <= i < p[j].params.len(),
        heap(p[j].params[i].ty),
        forall|k: int| 0 <= k < p.len() ==> is_written_fn(#[trigger] p[k]),
        binders_of(p) <= u64::MAX,
        numbers_of(rename_fns(Map::empty(), p).to) <= u64::MAX,
    ensures
        managed(p).len() == p.len(),
        renamed_at(p, j).params.len() == p[j].params.len(),
        balances(renamed_at(p, j).params[i].name, managed(p)[j].body),
{
    lemma_function(p, j);
    let none: crate::rc::rename::Suffixes = Map::empty();
    let used = lemma_renamed_at(none, p, j);
    let r = renamed_at(p, j);
    assert(is_written_fn(p[j]));
    lemma_renamed_params(used, Seq::empty(), p[j].params, i);
    let x = r.params[i].name;
    lemma_user_name(x);
    let body = owned_at(p, j);
    let left = managed(p)[j].body;
    assert forall|w: Seq<nat>| #[trigger] is_way(left, w, false) implies 1 + tally(
        left,
        x,
        w,
    ).retains == tally(left, x, w).releases + kept_on(left, x, w) by {
        bodies_keep_their_reads(r.params, body, x, w);
        managed_parameters_are_settled(p, j, i, w);
        paired_reads_are_retained_on_the_way(body, x, w);
    }
}

/// In a managed program, the references to every heap parameter of every lambda balance
/// on every way through the lambda.
pub proof fn references_of_lambda_parameters_balance(
    p: Seq<FnNode>,
    j: int,
    path: Seq<nat>,
    i: int,
)
    requires
        0 <= j < p.len(),
        forall|k: int| 0 <= k < p.len() ==> is_written_fn(#[trigger] p[k]),
        binders_of(p) <= u64::MAX,
        numbers_of(rename_fns(Map::empty(), p).to) <= u64::MAX,
        at(owned_at(p, j), path) matches Some(Node::Fn { params, .. }) && 0 <= i < params.len()
            && heap(params[i].ty) && !is_temp(params[i].name),
    ensures
        managed(p).len() == p.len(),
        at(owned_at(p, j), path) matches Some(Node::Fn { params, .. }) && at(
            managed(p)[j].body,
            path,
        ) matches Some(Node::Fn { params: q, body: left, .. }) && q == params && balances(
            params[i].name,
            *left,
        ),
{
    lambda_parameters_are_settled_at_their_places(p, j, path, i);
    lemma_kept_at(p, j, path);
    lemma_function(p, j);
    if let Some(Node::Fn { params, body, .. }) = at(owned_at(p, j), path) {
        if let Some(Node::Fn { body: left, .. }) = at(managed(p)[j].body, path) {
            let x = params[i].name;
            lemma_sound_at(owned_at(p, j), path, x);
            assert(paired(*body, x));
            lemma_apart_at(owned_at(p, j), path);
            assert forall|w: Seq<nat>| #[trigger] is_way(*left, w, false) implies 1 + tally(
                *left,
                x,
                w,
            ).retains == tally(*left, x, w).releases + kept_on(*left, x, w) by {
                bodies_keep_their_reads(params, *body, x, w);
                paired_reads_are_retained_on_the_way(*body, x, w);
                assert(settles(tally(*body, x, w), tally(*left, x, w)));
            }
        }
    }
}

proof fn lemma_apart_at(e: Node, path: Seq<nat>)
    requires
        scopes_apart(e),
    ensures
        at(e, path) matches Some(c) ==> scopes_apart(c),
    decreases path.len(),
{
    lemma_bare_apart(e);
    if path.len() > 0 {
        crate::rc::place::lemma_part_apart(bare(e), path[0]);
        if let Some(c) = part(bare(e), path[0]) {
            lemma_apart_at(c, path.drop_first());
        }
    }
}

proof fn lemma_bare_apart(e: Node)
    requires
        scopes_apart(e),
    ensures
        scopes_apart(bare(e)),
    decreases e,
{
    match e {
        Node::Release { next, .. } => lemma_bare_apart(*next),
        Node::Retain { value } => lemma_bare_apart(*value),
        _ => {},
    }
}

/// A way reads and retains no more than all ways together.
proof fn lemma_on_some(e: Node, x: Seq<char>, p: Seq<nat>)
    ensures
        kept_on(e, x, p) <= kept(e, x, true),
        tally(e, x, p).retains <= retains(e, x),
    decreases e, 0nat,
{
    match e {
        Node::Let { name, value, next, .. } => {
            match *value {
                Node::Try { body, arms, .. } => {
                    assert(kept(*value, x, true) == kept(*body, x, true) + kept_arms(
                        arms,
                        x,
                        true,
                    ));
                    assert(retains(*value, x) == retains(*body, x) + retains_arms(arms, x));
                    if hands_on(*next, name) {
                        if p[0] == 0 {
                            lemma_on_some(*next, x, p.drop_first());
                        } else {
                            lemma_catch_some(arms, x, p.drop_first());
                        }
                    } else {
                        lemma_on_some(*next, x, p);
                    }
                },
                _ => lemma_on_some(*next, x, p),
            }
        },
        Node::Release { next, .. } => lemma_on_some(*next, x, p),
        Node::If { then, els, .. } => {
            lemma_on_some(*then, x, p.drop_first());
            lemma_on_some(*els, x, p.drop_first());
        },
        Node::Match { arms, .. } => {
            if p[0] < arms.len() {
                lemma_arm_some(arms, x, p[0] as int, p.drop_first());
            }
        },
        Node::Try { arms, .. } => lemma_catch_some(arms, x, p.drop_first()),
        _ => {},
    }
}

proof fn lemma_catch_some(s: Seq<ArmNode>, x: Seq<char>, p: Seq<nat>)
    ensures
        kept_on_catch(s, x, p) <= kept_arms(s, x, true),
        catch_tally(s, x, p).retains <= retains_arms(s, x),
    decreases s, 1nat,
{
    if p[0] < s.len() {
        lemma_arm_some(s, x, p[0] as int, p.drop_first());
    }
}

proof fn lemma_arm_some(s: Seq<ArmNode>, x: Seq<char>, i: int, p: Seq<nat>)
    requires
        0 <= i < s.len(),
    ensures
        kept_on_arm(s[i], x, p) <= kept_arms(s, x, true),
        arm_tally(s[i], x, p).retains <= retains_arms(s, x),
    decreases s, 0nat,
{
    if i < s.len() - 1 {
        lemma_arm_some(s.drop_last(), x, i, p);
    } else {
        lemma_on_some(*s[i].body, x, p);
        assert(kept_on_arm(s[i], x, p) <= kept_arm(s[i], x, true));
        assert(arm_tally(s[i], x, p).retains <= retains_arm(s[i], x));
    }
}

/// In every function of a managed program, every temporary that holds a heap value
/// balances, or its scope hands it on: it reads it once, where the reference is kept,
/// and neither retains nor releases it. The names are those of a written program, and
/// numbers for renamed binders and for temporaries do not run out.
pub proof fn references_of_temporaries_balance(p: Seq<FnNode>, j: int, path: Seq<nat>)
    requires
        0 <= j < p.len(),
        forall|k: int| 0 <= k < p.len() ==> is_written_fn(#[trigger] p[k]),
        binders_of(p) <= u64::MAX,
        numbers_of(rename_fns(Map::empty(), p).to) <= u64::MAX,
        at(owned_at(p, j), path) matches Some(Node::Let { name, value_ty, .. }) && heap(value_ty)
            && is_temp(name),
    ensures
        managed(p).len() == p.len(),
        at(owned_at(p, j), path) matches Some(Node::Let { name, next, .. }) && at(
            managed(p)[j].body,
            path,
        ) matches Some(Node::Let { name: n, next: left, .. }) && n == name && (balances(
            name,
            *left,
        ) || (is_handed_on(name, *next, *left) && kept(*left, name, true) == 1)),
{
    let e = owned_at(p, j);
    lemma_kept_at(p, j, path);
    lemma_spent_at(e, path);
    if let Some(Node::Let { name, value_ty, next, .. }) = at(e, path) {
        if let Some(Node::Let { next: left, .. }) = at(managed(p)[j].body, path) {
            assert(is_spent(*next, name, value_ty));
            assert(is_as_kept(name, *next, *left));
            if passes(*next, name, 1) && kept(*next, name, true) == 0 {
                assert forall|w: Seq<nat>| #[trigger] is_way(*left, w, false) implies 1 + tally(
                    *left,
                    name,
                    w,
                ).retains == tally(*left, name, w).releases + kept_on(*left, name, w) by {
                    assert(is_way(*next, w, false));
                    lemma_on_some(*next, name, w);
                    assert(settles(tally(*next, name, w), tally(*left, name, w)));
                }
            } else {
                assert(is_unchanged(name, *next, *left));
                assert forall|w: Seq<nat>| #[trigger] is_way(*next, w, false) implies is_way(
                    *left,
                    w,
                    false,
                ) && tally(*left, name, w).releases == 0 by {
                    ways_pass(*next, name, 0, w);
                }
            }
        }
    }
}

} // verus!
