//! Moving last uses changes nothing of what is kept.

use vstd::prelude::*;

use crate::ir::{node_ty, ArmNode, Bind, Node};
use crate::rc::absent::{absent, arm_absent, arms_absent};
use crate::rc::count::{
    hold_of, holds, is_own, kept, kept_all, kept_arm, kept_arms, kept_on, kept_on_arm,
    kept_on_catch, Hold,
};
use crate::rc::elide::{
    elided, elided_all, elided_arm, elided_arms, elided_body, optimize, optimize_params,
};
use crate::rc::insert::hands_on;
use crate::rc::moves::{is_arm_way, is_catch_way, is_way, lemma_optimize_hands_on};
use crate::rc::place::{
    all_scopes_apart, arm_scope_apart, arm_scopes_apart, bare, lemma_elided_absent, scopes_apart,
};
use crate::rc::thin::{
    all_thinner, arm_thinner, arms_thinner, lemma_arms_at, lemma_still_absent, moves_only_thin,
    thinner,
};
use crate::types::heap;

verus! {

/// Dropping releases and retains changes no kept read.
pub proof fn lemma_thin_kept(a: Node, b: Node, y: Seq<char>, x: Seq<char>, own: bool)
    requires
        thinner(a, b, y),
    ensures
        kept(b, x, own) == kept(a, x, own),
        node_ty(b) == node_ty(a),
        bare(b) is Var == bare(a) is Var,
    decreases a,
{
    if a != b {
        match a {
            Node::Release { name, next, .. } => {
                if name == y && thinner(*next, b, y) {
                    lemma_thin_kept(*next, b, y, x, own);
                } else if let Node::Release { next: m, .. } = b {
                    lemma_thin_kept(*next, *m, y, x, own);
                }
            },
            Node::Retain { value } => {
                if *value is Var && b == *value {
                    assert(bare(*value) == *value);
                } else if let Node::Retain { value: v } = b {
                    lemma_thin_kept(*value, *v, y, x, own);
                }
            },
            Node::Let { value, next, .. } => {
                if let Node::Let { value: v, next: m, .. } = b {
                    lemma_thin_kept(*value, *v, y, x, true);
                    lemma_thin_kept(*next, *m, y, x, own);
                }
            },
            Node::Throw { value } => {
                if let Node::Throw { value: v } = b {
                    lemma_thin_kept(*value, *v, y, x, true);
                }
            },
            Node::Question { value, .. } => {
                if let Node::Question { value: v, .. } = b {
                    lemma_thin_kept(*value, *v, y, x, true);
                }
            },
            Node::Call { callee, args, .. } => {
                if let Node::Call { callee: c, args: s, .. } = b {
                    lemma_thin_kept(*callee, *c, y, x, false);
                    lemma_thin_all(hold_of(a), args, s, y, x);
                }
            },
            Node::Platform { args, .. } => {
                if let Node::Platform { args: s, .. } = b {
                    lemma_thin_all(hold_of(a), args, s, y, x);
                }
            },
            Node::Intrinsic { args, .. } => {
                if let Node::Intrinsic { args: s, .. } = b {
                    lemma_thin_all(hold_of(a), args, s, y, x);
                }
            },
            Node::TailSelfCall { args, .. } => {
                if let Node::TailSelfCall { args: s, .. } = b {
                    lemma_thin_all(hold_of(a), args, s, y, x);
                }
            },
            Node::Array { elems, .. } => {
                if let Node::Array { elems: s, .. } = b {
                    lemma_thin_all(hold_of(a), elems, s, y, x);
                }
            },
            Node::EnumValue { payload, .. } => {
                if let Node::EnumValue { payload: s, .. } = b {
                    lemma_thin_all(hold_of(a), payload, s, y, x);
                }
            },
            Node::RecordValue { fields, .. } => {
                if let Node::RecordValue { fields: s, .. } = b {
                    lemma_thin_all(hold_of(a), fields, s, y, x);
                }
            },
            Node::FieldAccess { target, .. } => {
                if let Node::FieldAccess { target: v, .. } = b {
                    lemma_thin_kept(*target, *v, y, x, is_own(false, *target));
                }
            },
            Node::CharFromCode(value) => {
                if let Node::CharFromCode(v) = b {
                    lemma_thin_kept(*value, *v, y, x, is_own(false, *value));
                }
            },
            Node::StringFromChar(value) => {
                if let Node::StringFromChar(v) = b {
                    lemma_thin_kept(*value, *v, y, x, is_own(false, *value));
                }
            },
            Node::Binary { left, right, .. } => {
                if let Node::Binary { left: l, right: r, .. } = b {
                    lemma_thin_kept(*left, *l, y, x, is_own(false, *left));
                    lemma_thin_kept(*right, *r, y, x, is_own(false, *right));
                }
            },
            Node::Concat { left, right } => {
                if let Node::Concat { left: l, right: r } = b {
                    lemma_thin_kept(*left, *l, y, x, is_own(false, *left));
                    lemma_thin_kept(*right, *r, y, x, is_own(false, *right));
                }
            },
            Node::If { cond, then, els, .. } => {
                if let Node::If { cond: c, then: t, els: f, .. } = b {
                    lemma_thin_kept(*cond, *c, y, x, true);
                    lemma_thin_kept(*then, *t, y, x, own);
                    lemma_thin_kept(*els, *f, y, x, own);
                }
            },
            Node::Match { scrutinee, arms, .. } => {
                if let Node::Match { scrutinee: v, arms: s, .. } = b {
                    lemma_thin_kept(*scrutinee, *v, y, x, false);
                    lemma_thin_arms(arms, s, y, x, own);
                }
            },
            Node::Try { body, arms, .. } => {
                if let Node::Try { body: v, arms: s, .. } = b {
                    lemma_thin_kept(*body, *v, y, x, own);
                    lemma_thin_arms(arms, s, y, x, own);
                }
            },
            Node::Panic { message } => {
                if let Node::Panic { message: v } = b {
                    lemma_thin_kept(*message, *v, y, x, !(bare(*message) is Var));
                }
            },
            _ => {},
        }
    }
}

proof fn lemma_thin_all(h: Hold, s: Seq<Node>, t: Seq<Node>, y: Seq<char>, x: Seq<char>)
    requires
        all_thinner(s, t, y),
    ensures
        kept_all(h, t, x) == kept_all(h, s, x),
        t.len() == s.len(),
    decreases s,
{
    if s != t {
        lemma_thin_all(h, s.drop_last(), t.drop_last(), y, x);
        lemma_thin_kept(s.last(), t.last(), y, x, is_own(holds(h, s.len() - 1), s.last()));
    }
}

proof fn lemma_thin_arm(a: ArmNode, b: ArmNode, y: Seq<char>, x: Seq<char>, own: bool)
    requires
        arm_thinner(a, b, y),
    ensures
        kept_arm(b, x, own) == kept_arm(a, x, own),
    decreases a,
{
    lemma_thin_kept(*a.body, *b.body, y, x, own);
}

proof fn lemma_thin_arms(s: Seq<ArmNode>, t: Seq<ArmNode>, y: Seq<char>, x: Seq<char>, own: bool)
    requires
        arms_thinner(s, t, y),
    ensures
        kept_arms(t, x, own) == kept_arms(s, x, own),
    decreases s,
{
    if s != t {
        lemma_thin_arms(s.drop_last(), t.drop_last(), y, x, own);
        lemma_thin_arm(s.last(), t.last(), y, x, own);
    }
}

/// Dropping releases and retains changes no way, and no kept read on it.
pub proof fn lemma_thin_on(a: Node, b: Node, y: Seq<char>, x: Seq<char>, p: Seq<nat>, jumping: bool)
    requires
        thinner(a, b, y),
    ensures
        is_way(b, p, jumping) == is_way(a, p, jumping),
        kept_on(b, x, p) == kept_on(a, x, p),
    decreases a, 1nat,
{
    if a != b {
        lemma_thin_kept(a, b, y, x, true);
        match a {
            Node::Release { name, next, .. } => {
                if name == y && thinner(*next, b, y) {
                    lemma_thin_on(*next, b, y, x, p, jumping);
                } else if let Node::Release { next: m, .. } = b {
                    lemma_thin_on(*next, *m, y, x, p, jumping);
                }
            },
            Node::Let { name, value, next, .. } => {
                if let Node::Let { value: v, next: m, .. } = b {
                    lemma_thin_kept(*value, *v, y, x, true);
                    lemma_thin_on(*next, *m, y, x, p, jumping);
                    if *value is Try {
                        lemma_thin_value(*value, *v, y, x, p.drop_first());
                        lemma_thin_on(*next, *m, y, x, p.drop_first(), jumping);
                    }
                }
            },
            Node::If { cond, then, els, .. } => {
                if let Node::If { cond: c, then: t, els: f, .. } = b {
                    lemma_thin_kept(*cond, *c, y, x, true);
                    lemma_thin_on(*then, *t, y, x, p.drop_first(), jumping);
                    lemma_thin_on(*els, *f, y, x, p.drop_first(), jumping);
                }
            },
            Node::Match { scrutinee, arms, .. } => {
                if let Node::Match { scrutinee: v, arms: s, .. } = b {
                    lemma_thin_kept(*scrutinee, *v, y, x, false);
                    lemma_arms_at(arms, s, y);
                    if p[0] < arms.len() {
                        lemma_thin_arm_on(
                            arms[p[0] as int],
                            s[p[0] as int],
                            y,
                            x,
                            p.drop_first(),
                            jumping,
                        );
                    }
                }
            },
            Node::Try { .. } => {
                lemma_thin_value(a, b, y, x, p.drop_first());
            },
            _ => {},
        }
    }
}

proof fn lemma_thin_value(a: Node, b: Node, y: Seq<char>, x: Seq<char>, p: Seq<nat>)
    requires
        thinner(a, b, y),
        a is Try,
        b is Try,
    ensures
        a matches Node::Try { body, arms, .. } && b matches Node::Try { body: d, arms: s, .. }
            && is_catch_way(s, p) == is_catch_way(arms, p) && kept_on_catch(s, x, p)
            == kept_on_catch(arms, x, p) && kept(*d, x, true) == kept(*body, x, true),
    decreases a, 0nat,
{
    if a != b {
        if let Node::Try { body, arms, .. } = a {
            if let Node::Try { body: d, arms: s, .. } = b {
                lemma_thin_kept(*body, *d, y, x, true);
                lemma_thin_catch(arms, s, y, x, p);
            }
        }
    }
}

proof fn lemma_thin_catch(s: Seq<ArmNode>, t: Seq<ArmNode>, y: Seq<char>, x: Seq<char>, p: Seq<nat>)
    requires
        arms_thinner(s, t, y),
    ensures
        is_catch_way(t, p) == is_catch_way(s, p),
        kept_on_catch(t, x, p) == kept_on_catch(s, x, p),
    decreases s, 0nat,
{
    lemma_arms_at(s, t, y);
    if p[0] < s.len() {
        lemma_thin_arm_on(s[p[0] as int], t[p[0] as int], y, x, p.drop_first(), true);
    }
}

proof fn lemma_thin_arm_on(a: ArmNode, b: ArmNode, y: Seq<char>, x: Seq<char>, p: Seq<nat>, jumping: bool)
    requires
        arm_thinner(a, b, y),
    ensures
        is_arm_way(b, p, jumping) == is_arm_way(a, p, jumping),
        kept_on_arm(b, x, p) == kept_on_arm(a, x, p),
    decreases a, 0nat,
{
    lemma_thin_on(*a.body, *b.body, y, x, p, jumping);
}

/// Moving last uses changes no kept read.
pub proof fn lemma_elided_kept(e: Node, x: Seq<char>, own: bool)
    requires
        scopes_apart(e),
    ensures
        kept(elided(e), x, own) == kept(e, x, own),
        node_ty(elided(e)) == node_ty(e),
        bare(elided(e)) is Var == bare(e) is Var,
    decreases e,
{
    match e {
        Node::Let { name, value_ty, value, next } => {
            lemma_elided_kept(*value, x, true);
            lemma_elided_kept(*next, x, own);
            if heap(value_ty) {
                lemma_elided_absent(*next, name);
                moves_only_thin(elided(*next), name);
                lemma_thin_kept(elided(*next), optimize(elided(*next), name), name, x, own);
            }
        },
        Node::Release { next, .. } => lemma_elided_kept(*next, x, own),
        Node::Retain { value } => lemma_elided_kept(*value, x, own),
        Node::Throw { value } => lemma_elided_kept(*value, x, true),
        Node::Question { value, .. } => lemma_elided_kept(*value, x, true),
        Node::Call { callee, args, .. } => {
            lemma_elided_kept(*callee, x, false);
            lemma_elided_kept_all(hold_of(e), args, x);
        },
        Node::Platform { args, .. } => lemma_elided_kept_all(hold_of(e), args, x),
        Node::Intrinsic { args, .. } => lemma_elided_kept_all(hold_of(e), args, x),
        Node::TailSelfCall { args, .. } => lemma_elided_kept_all(hold_of(e), args, x),
        Node::Array { elems, .. } => lemma_elided_kept_all(hold_of(e), elems, x),
        Node::EnumValue { payload, .. } => lemma_elided_kept_all(hold_of(e), payload, x),
        Node::RecordValue { fields, .. } => lemma_elided_kept_all(hold_of(e), fields, x),
        Node::FieldAccess { target, .. } => lemma_elided_kept(*target, x, is_own(false, *target)),
        Node::CharFromCode(value) => lemma_elided_kept(*value, x, is_own(false, *value)),
        Node::StringFromChar(value) => lemma_elided_kept(*value, x, is_own(false, *value)),
        Node::Binary { left, right, .. } => {
            lemma_elided_kept(*left, x, is_own(false, *left));
            lemma_elided_kept(*right, x, is_own(false, *right));
        },
        Node::Concat { left, right } => {
            lemma_elided_kept(*left, x, is_own(false, *left));
            lemma_elided_kept(*right, x, is_own(false, *right));
        },
        Node::If { cond, then, els, .. } => {
            lemma_elided_kept(*cond, x, true);
            lemma_elided_kept(*then, x, own);
            lemma_elided_kept(*els, x, own);
        },
        Node::Match { scrutinee, arms, .. } => {
            lemma_elided_kept(*scrutinee, x, false);
            lemma_elided_kept_arms(arms, None, x, own);
        },
        Node::Try { body, arms, err_name, .. } => {
            lemma_elided_kept(*body, x, own);
            lemma_elided_kept_arms(arms, err_name, x, own);
        },
        Node::Panic { message } => lemma_elided_kept(*message, x, !(bare(*message) is Var)),
        _ => {},
    }
}

proof fn lemma_elided_kept_all(h: Hold, s: Seq<Node>, x: Seq<char>)
    requires
        all_scopes_apart(s),
    ensures
        kept_all(h, elided_all(s), x) == kept_all(h, s, x),
        elided_all(s).len() == s.len(),
    decreases s,
{
    if s.len() > 0 {
        lemma_elided_kept_all(h, s.drop_last(), x);
        lemma_elided_kept(s.last(), x, is_own(holds(h, s.len() - 1), s.last()));
        assert(elided_all(s).drop_last() =~= elided_all(s.drop_last()));
    }
}

proof fn lemma_elided_kept_arm(arm: ArmNode, err: Option<Seq<char>>, x: Seq<char>, own: bool)
    requires
        arm_scope_apart(arm),
        err matches Some(y) ==> arm_absent(arm, y),
    ensures
        kept_arm(elided_arm(arm, err), x, own) == kept_arm(arm, x, own),
    decreases arm,
{
    if let Some(guard) = arm.guard {
        lemma_elided_kept(*guard, x, true);
    }
    lemma_elided_kept(*arm.body, x, own);
    if let Some(y) = err {
        lemma_elided_absent(*arm.body, y);
        moves_only_thin(elided(*arm.body), y);
        lemma_thin_kept(elided(*arm.body), optimize(elided(*arm.body), y), y, x, own);
    }
}

proof fn lemma_elided_kept_arms(s: Seq<ArmNode>, err: Option<Seq<char>>, x: Seq<char>, own: bool)
    requires
        arm_scopes_apart(s),
        err matches Some(y) ==> arms_absent(s, y),
    ensures
        kept_arms(elided_arms(s, err), x, own) == kept_arms(s, x, own),
        elided_arms(s, err).len() == s.len(),
    decreases s,
{
    if s.len() > 0 {
        lemma_elided_kept_arms(s.drop_last(), err, x, own);
        lemma_elided_kept_arm(s.last(), err, x, own);
        assert(elided_arms(s, err).drop_last() =~= elided_arms(s.drop_last(), err));
    }
}

proof fn lemma_elided_hands_on(e: Node, bound: Seq<char>)
    ensures
        hands_on(elided(e), bound) == hands_on(e, bound),
    decreases e,
{
    if let Node::Release { next, .. } = e {
        lemma_elided_hands_on(*next, bound);
    }
}

/// Moving last uses changes no way, and no kept read on it.
pub proof fn lemma_elided_on(e: Node, x: Seq<char>, p: Seq<nat>, jumping: bool)
    requires
        scopes_apart(e),
    ensures
        is_way(elided(e), p, jumping) == is_way(e, p, jumping),
        kept_on(elided(e), x, p) == kept_on(e, x, p),
    decreases e, 0nat,
{
    lemma_elided_kept(e, x, true);
    match e {
        Node::Let { name, value_ty, value, next } => {
            lemma_elided_kept(*value, x, true);
            lemma_elided_on(*next, x, p, jumping);
            lemma_elided_on(*next, x, p.drop_first(), jumping);
            lemma_elided_hands_on(*next, name);
            let n = elided(*next);
            if heap(value_ty) {
                lemma_elided_absent(*next, name);
                moves_only_thin(n, name);
                lemma_thin_on(n, optimize(n, name), name, x, p, jumping);
                lemma_thin_on(n, optimize(n, name), name, x, p.drop_first(), jumping);
                lemma_optimize_hands_on(n, name, name);
            }
            if let Node::Try { body, arms, err_name, .. } = *value {
                assert(scopes_apart(*value));
                lemma_elided_kept(*body, x, true);
                lemma_elided_catch(arms, err_name, x, p.drop_first());
            }
        },
        Node::Release { next, .. } => lemma_elided_on(*next, x, p, jumping),
        Node::If { cond, then, els, .. } => {
            lemma_elided_kept(*cond, x, true);
            lemma_elided_on(*then, x, p.drop_first(), jumping);
            lemma_elided_on(*els, x, p.drop_first(), jumping);
        },
        Node::Match { scrutinee, arms, .. } => {
            lemma_elided_kept(*scrutinee, x, false);
            lemma_elided_len(arms, None);
            if p[0] < arms.len() {
                lemma_elided_arm_on(arms, None, x, p, jumping);
            }
        },
        Node::Try { body, arms, err_name, .. } => {
            lemma_elided_kept(*body, x, true);
            lemma_elided_catch(arms, err_name, x, p.drop_first());
        },
        _ => {},
    }
}

proof fn lemma_elided_len(s: Seq<ArmNode>, err: Option<Seq<char>>)
    ensures
        elided_arms(s, err).len() == s.len(),
        forall|i: int|
            0 <= i < s.len() ==> #[trigger] elided_arms(s, err)[i] == elided_arm(s[i], err),
    decreases s.len(),
{
    if s.len() > 0 {
        lemma_elided_len(s.drop_last(), err);
    }
}

proof fn lemma_apart_at(s: Seq<ArmNode>, err: Option<Seq<char>>, i: int)
    requires
        arm_scopes_apart(s),
        err matches Some(y) ==> arms_absent(s, y),
        0 <= i < s.len(),
    ensures
        arm_scope_apart(s[i]),
        err matches Some(y) ==> arm_absent(s[i], y),
    decreases s.len(),
{
    if i < s.len() - 1 {
        lemma_apart_at(s.drop_last(), err, i);
    }
}

/// The arm that a way takes.
proof fn lemma_elided_arm_on(s: Seq<ArmNode>, err: Option<Seq<char>>, x: Seq<char>, p: Seq<nat>, jumping: bool)
    requires
        arm_scopes_apart(s),
        err matches Some(y) ==> arms_absent(s, y),
        p[0] < s.len(),
    ensures
        elided_arms(s, err).len() == s.len(),
        is_arm_way(elided_arms(s, err)[p[0] as int], p.drop_first(), jumping) == is_arm_way(
            s[p[0] as int],
            p.drop_first(),
            jumping,
        ),
        kept_on_arm(elided_arms(s, err)[p[0] as int], x, p.drop_first()) == kept_on_arm(
            s[p[0] as int],
            x,
            p.drop_first(),
        ),
    decreases s, 0nat,
{
    let i = p[0] as int;
    let w = p.drop_first();
    lemma_elided_len(s, err);
    lemma_apart_at(s, err, i);
    let arm = s[i];
    let b = elided(*arm.body);
    lemma_elided_on(*arm.body, x, w, jumping);
    if let Some(y) = err {
        lemma_elided_absent(*arm.body, y);
        moves_only_thin(b, y);
        lemma_thin_on(b, optimize(b, y), y, x, w, jumping);
    }
    assert(elided_arms(s, err)[i] == elided_arm(s[i], err));
}

proof fn lemma_elided_catch(s: Seq<ArmNode>, err: Option<Seq<char>>, x: Seq<char>, p: Seq<nat>)
    requires
        arm_scopes_apart(s),
        err matches Some(y) ==> arms_absent(s, y),
    ensures
        is_catch_way(elided_arms(s, err), p) == is_catch_way(s, p),
        kept_on_catch(elided_arms(s, err), x, p) == kept_on_catch(s, x, p),
    decreases s, 1nat,
{
    lemma_elided_len(s, err);
    if p[0] < s.len() {
        lemma_elided_arm_on(s, err, x, p, true);
    }
}

/// The moves of parameters change no way, and no kept read on it.
pub proof fn lemma_params_on(params: Seq<Bind>, e: Node, x: Seq<char>, p: Seq<nat>, jumping: bool)
    requires
        forall|i: int|
            0 <= i < params.len() && heap((#[trigger] params[i]).ty) ==> absent(e, params[i].name),
    ensures
        is_way(optimize_params(params, e), p, jumping) == is_way(e, p, jumping),
        kept_on(optimize_params(params, e), x, p) == kept_on(e, x, p),
        forall|y: Seq<char>| absent(e, y) ==> #[trigger] absent(optimize_params(params, e), y),
    decreases params.len(),
{
    if params.len() > 0 {
        let front = params.drop_last();
        assert forall|i: int| 0 <= i < front.len() && heap((#[trigger] front[i]).ty) implies absent(
            e,
            front[i].name,
        ) by {
            assert(front[i] == params[i]);
        }
        lemma_params_on(front, e, x, p, jumping);
        let init = optimize_params(front, e);
        let last = params.last();
        if heap(last.ty) {
            assert(params[params.len() - 1] == last);
            assert(absent(e, last.name));
            assert(absent(init, last.name));
            moves_only_thin(init, last.name);
            lemma_thin_on(init, optimize(init, last.name), last.name, x, p, jumping);
            assert forall|y: Seq<char>| absent(e, y) implies #[trigger] absent(
                optimize_params(params, e),
                y,
            ) by {
                assert(absent(init, y));
                lemma_still_absent(init, optimize(init, last.name), last.name, y);
            }
        }
    }
}

/// Moving last uses in a body changes no way through it, and no kept read on it.
pub proof fn bodies_keep_their_reads(params: Seq<Bind>, body: Node, x: Seq<char>, p: Seq<nat>)
    requires
        scopes_apart(body),
        forall|i: int|
            0 <= i < params.len() && heap((#[trigger] params[i]).ty) ==> absent(
                body,
                params[i].name,
            ),
    ensures
        is_way(elided_body(params, body), p, false) == is_way(body, p, false),
        kept_on(elided_body(params, body), x, p) == kept_on(body, x, p),
{
    lemma_elided_on(body, x, p, false);
    assert forall|i: int| 0 <= i < params.len() && heap((#[trigger] params[i]).ty) implies absent(
        elided(body),
        params[i].name,
    ) by {
        lemma_elided_absent(body, params[i].name);
    }
    lemma_params_on(params, elided(body), x, p, false);
}

} // verus!
