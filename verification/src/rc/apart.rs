//! After renaming, no binder shadows another: a `release` of a name always names
//! one binding.

use vstd::prelude::*;

use crate::ir::{ArmNode, Bind, FnNode, Node, Pat};
use crate::rc::insert::temp_name;
use crate::rc::laws::is_temp;
use crate::rc::rename::{
    after_bind, bind_fields, bind_params, next_suffix, rename, rename_all, rename_arm,
    rename_arms, rename_captures, rename_pattern, resolve, unique_name, visible, Scope, Suffixes,
};
use crate::rc::rename_fn;
use crate::strings::{decimal, digit};

verus! {

/// Whether a name can be written in a program: it has no `#` and is not that of a
/// temporary.
pub open spec fn is_written(name: Seq<char>) -> bool {
    !name.contains('#') && !is_temp(name)
}

/// The names that are visible after parameters.
pub open spec fn param_vis(vis: Seq<Seq<char>>, s: Seq<Bind>) -> Seq<Seq<char>>
    decreases s.len(),
{
    if s.len() == 0 {
        vis
    } else {
        param_vis(vis, s.drop_last()).push(s.last().name)
    }
}

/// Whether no parameter has a name that is visible where it stands, or that of a
/// temporary.
pub open spec fn params_apart(s: Seq<Bind>, vis: Seq<Seq<char>>) -> bool
    decreases s.len(),
{
    s.len() == 0 || (params_apart(s.drop_last(), vis) && !is_temp(s.last().name) && !param_vis(
        vis,
        s.drop_last(),
    ).contains(s.last().name))
}

/// The names that are visible after the fields of a pattern.
pub open spec fn field_vis(vis: Seq<Seq<char>>, s: Seq<Option<Bind>>) -> Seq<Seq<char>>
    decreases s.len(),
{
    if s.len() == 0 {
        vis
    } else {
        match s.last() {
            Some(f) => field_vis(vis, s.drop_last()).push(f.name),
            None => field_vis(vis, s.drop_last()),
        }
    }
}

/// Whether no field of a pattern has a name that is visible where it stands.
pub open spec fn fields_apart(s: Seq<Option<Bind>>, vis: Seq<Seq<char>>) -> bool
    decreases s.len(),
{
    s.len() == 0 || (fields_apart(s.drop_last(), vis) && (s.last() matches Some(f) ==> !field_vis(
        vis,
        s.drop_last(),
    ).contains(f.name)))
}

/// The names that are visible after a pattern.
pub open spec fn pattern_vis(vis: Seq<Seq<char>>, p: Pat) -> Seq<Seq<char>> {
    match p {
        Pat::Variant { bindings, .. } => field_vis(vis, bindings),
        Pat::Wildcard { binding } => match binding {
            Some(f) => vis.push(f.name),
            None => vis,
        },
    }
}

/// Whether no binder of a pattern has a name that is visible where it stands.
pub open spec fn pattern_apart(p: Pat, vis: Seq<Seq<char>>) -> bool {
    match p {
        Pat::Variant { bindings, .. } => fields_apart(bindings, vis),
        Pat::Wildcard { binding } => binding matches Some(f) ==> !vis.contains(f.name),
    }
}

/// At least how many binders a pattern has.
pub open spec fn pattern_binders(p: Pat) -> nat {
    match p {
        Pat::Variant { bindings, .. } => bindings.len(),
        Pat::Wildcard { .. } => 1,
    }
}

/// Whether every parameter has a name that can be written in a program.
pub open spec fn plain_params(s: Seq<Bind>) -> bool {
    forall|i: int| 0 <= i < s.len() ==> is_written((#[trigger] s[i]).name)
}

/// Whether every binder of a pattern has a name that can be written in a program.
pub open spec fn plain_pattern(p: Pat) -> bool {
    match p {
        Pat::Variant { bindings, .. } => forall|i: int|
            0 <= i < bindings.len() ==> (#[trigger] bindings[i] matches Some(f) ==> is_written(
                f.name,
            )),
        Pat::Wildcard { binding } => binding matches Some(f) ==> is_written(f.name),
    }
}

/// Whether captures read no temporary.
pub open spec fn reads_no_temp(captures: Seq<Bind>) -> bool {
    forall|i: int| 0 <= i < captures.len() ==> !is_temp((#[trigger] captures[i]).name)
}

/// Whether no binder in `e` has a name that is visible where it stands, no `let` and
/// no parameter has that of a temporary, and nothing reads one; `vis` are the names
/// that are visible around `e`.
pub open spec fn apart(e: Node, vis: Seq<Seq<char>>) -> bool
    decreases e,
{
    match e {
        Node::Let { name, value, next, .. } => {
            &&& !vis.contains(name) && !is_temp(name)
            &&& apart(*value, vis)
            &&& apart(*next, vis.push(name))
        },
        Node::Fn { params, captures, body, .. } => {
            &&& reads_no_temp(captures)
            &&& params_apart(params, vis)
            &&& apart(*body, param_vis(vis, params))
        },
        Node::Var { name, .. } => !is_temp(name),
        Node::Match { scrutinee, arms, .. } => apart(*scrutinee, vis) && apart_arms(arms, vis),
        Node::Try { body, arms, err_name, .. } => apart(*body, vis) && apart_arms(arms, vis) && (
        err_name matches Some(name) ==> !vis.contains(name)),
        Node::Array { elems, .. } => apart_all(elems, vis),
        Node::Call { callee, args, .. } => apart(*callee, vis) && apart_all(args, vis),
        Node::Platform { args, .. } => apart_all(args, vis),
        Node::Intrinsic { args, .. } => apart_all(args, vis),
        Node::TailSelfCall { args, .. } => apart_all(args, vis),
        Node::If { cond, then, els, .. } => apart(*cond, vis) && apart(*then, vis) && apart(*els, vis),
        Node::Binary { left, right, .. } => apart(*left, vis) && apart(*right, vis),
        Node::Concat { left, right } => apart(*left, vis) && apart(*right, vis),
        Node::EnumValue { payload, .. } => apart_all(payload, vis),
        Node::RecordValue { fields, .. } => apart_all(fields, vis),
        Node::FieldAccess { target, .. } => apart(*target, vis),
        Node::Throw { value } => apart(*value, vis),
        Node::Question { value, .. } => apart(*value, vis),
        Node::Panic { message } => apart(*message, vis),
        Node::CharFromCode(value) => apart(*value, vis),
        Node::StringFromChar(value) => apart(*value, vis),
        Node::Retain { value } => apart(*value, vis),
        Node::Release { next, .. } => apart(*next, vis),
        _ => true,
    }
}

/// [`apart`] of every expression of a list.
pub open spec fn apart_all(s: Seq<Node>, vis: Seq<Seq<char>>) -> bool
    decreases s,
{
    if s.len() == 0 {
        true
    } else {
        apart_all(s.drop_last(), vis) && apart(s.last(), vis)
    }
}

/// [`apart`] of an arm: its pattern binds for its guard and its body.
pub open spec fn apart_arm(arm: ArmNode, vis: Seq<Seq<char>>) -> bool
    decreases arm,
{
    pattern_apart(arm.pattern, vis) && (match arm.guard {
        Some(guard) => apart(*guard, pattern_vis(vis, arm.pattern)),
        None => true,
    }) && apart(*arm.body, pattern_vis(vis, arm.pattern))
}

/// [`apart`] of every arm of a list.
pub open spec fn apart_arms(s: Seq<ArmNode>, vis: Seq<Seq<char>>) -> bool
    decreases s,
{
    if s.len() == 0 {
        true
    } else {
        apart_arms(s.drop_last(), vis) && apart_arm(s.last(), vis)
    }
}

/// How many binders stand in `e`.
pub open spec fn binders(e: Node) -> nat
    decreases e,
{
    match e {
        Node::Let { value, next, .. } => binders(*value) + binders(*next) + 1,
        Node::Fn { params, body, .. } => params.len() + binders(*body),
        Node::Match { scrutinee, arms, .. } => binders(*scrutinee) + binders_arms(arms),
        Node::Try { body, arms, .. } => binders(*body) + binders_arms(arms),
        Node::Array { elems, .. } => binders_all(elems),
        Node::Call { callee, args, .. } => binders(*callee) + binders_all(args),
        Node::Platform { args, .. } => binders_all(args),
        Node::Intrinsic { args, .. } => binders_all(args),
        Node::TailSelfCall { args, .. } => binders_all(args),
        Node::If { cond, then, els, .. } => binders(*cond) + binders(*then) + binders(*els),
        Node::Binary { left, right, .. } => binders(*left) + binders(*right),
        Node::Concat { left, right } => binders(*left) + binders(*right),
        Node::EnumValue { payload, .. } => binders_all(payload),
        Node::RecordValue { fields, .. } => binders_all(fields),
        Node::FieldAccess { target, .. } => binders(*target),
        Node::Throw { value } => binders(*value),
        Node::Question { value, .. } => binders(*value),
        Node::Panic { message } => binders(*message),
        Node::CharFromCode(value) => binders(*value),
        Node::StringFromChar(value) => binders(*value),
        Node::Retain { value } => binders(*value),
        Node::Release { next, .. } => binders(*next),
        _ => 0,
    }
}

/// How many binders stand in a list of expressions.
pub open spec fn binders_all(s: Seq<Node>) -> nat
    decreases s,
{
    if s.len() == 0 {
        0
    } else {
        binders_all(s.drop_last()) + binders(s.last())
    }
}

/// How many binders stand in an arm.
pub open spec fn binders_arm(arm: ArmNode) -> nat
    decreases arm,
{
    pattern_binders(arm.pattern) + (match arm.guard {
        Some(guard) => binders(*guard),
        None => 0,
    }) + binders(*arm.body)
}

/// How many binders stand in a list of arms.
pub open spec fn binders_arms(s: Seq<ArmNode>) -> nat
    decreases s,
{
    if s.len() == 0 {
        0
    } else {
        binders_arms(s.drop_last()) + binders_arm(s.last())
    }
}

/// Whether every binder in `e` has a name that can be written in a program, where
/// caught errors have none, and nothing reads a temporary.
pub open spec fn plain(e: Node) -> bool
    decreases e,
{
    match e {
        Node::Let { name, value, next, .. } => is_written(name) && plain(*value) && plain(*next),
        Node::Fn { params, captures, body, .. } => reads_no_temp(captures) && plain_params(params)
            && plain(*body),
        Node::Var { name, .. } => !is_temp(name),
        Node::Match { scrutinee, arms, .. } => plain(*scrutinee) && plain_arms(arms),
        Node::Try { body, arms, err_name, .. } => plain(*body) && plain_arms(arms) && err_name is None,
        Node::Array { elems, .. } => plain_all(elems),
        Node::Call { callee, args, .. } => plain(*callee) && plain_all(args),
        Node::Platform { args, .. } => plain_all(args),
        Node::Intrinsic { args, .. } => plain_all(args),
        Node::TailSelfCall { args, .. } => plain_all(args),
        Node::If { cond, then, els, .. } => plain(*cond) && plain(*then) && plain(*els),
        Node::Binary { left, right, .. } => plain(*left) && plain(*right),
        Node::Concat { left, right } => plain(*left) && plain(*right),
        Node::EnumValue { payload, .. } => plain_all(payload),
        Node::RecordValue { fields, .. } => plain_all(fields),
        Node::FieldAccess { target, .. } => plain(*target),
        Node::Throw { value } => plain(*value),
        Node::Question { value, .. } => plain(*value),
        Node::Panic { message } => plain(*message),
        Node::CharFromCode(value) => plain(*value),
        Node::StringFromChar(value) => plain(*value),
        Node::Retain { value } => plain(*value),
        Node::Release { next, .. } => plain(*next),
        _ => true,
    }
}

/// [`plain`] of every expression of a list.
pub open spec fn plain_all(s: Seq<Node>) -> bool
    decreases s,
{
    if s.len() == 0 {
        true
    } else {
        plain_all(s.drop_last()) && plain(s.last())
    }
}

/// [`plain`] of an arm.
pub open spec fn plain_arm(arm: ArmNode) -> bool
    decreases arm,
{
    plain_pattern(arm.pattern) && (match arm.guard {
        Some(guard) => plain(*guard),
        None => true,
    }) && plain(*arm.body)
}

/// [`plain`] of every arm of a list.
pub open spec fn plain_arms(s: Seq<ArmNode>) -> bool
    decreases s,
{
    if s.len() == 0 {
        true
    } else {
        plain_arms(s.drop_last()) && plain_arm(s.last())
    }
}

proof fn lemma_decimal_len(n: nat)
    ensures
        decimal(n).len() >= 1,
        n >= 10 ==> decimal(n).len() >= 2,
    decreases n,
{
    if n >= 10 {
        lemma_decimal_len(n / 10);
    }
}

proof fn lemma_digit(a: nat, b: nat)
    requires
        digit(a) == digit(b),
    ensures
        a % 10 == b % 10,
{
    assert(((48 + a % 10) as u8) as int == 48 + a % 10);
    assert(((48 + b % 10) as u8) as int == 48 + b % 10);
}

/// Different numbers have different decimal forms.
pub proof fn decimals_are_apart(a: nat, b: nat)
    requires
        decimal(a) == decimal(b),
    ensures
        a == b,
    decreases a,
{
    lemma_decimal_len(a);
    lemma_decimal_len(b);
    if a < 10 {
        assert(decimal(a).len() == 1);
        assert(b < 10);
        assert(decimal(a) == seq![digit(a)]);
        assert(decimal(b) == seq![digit(b)]);
        assert(seq![digit(a)][0] == digit(a) && seq![digit(b)][0] == digit(b));
        lemma_digit(a, b);
    } else {
        assert(b >= 10);
        assert(decimal(a).drop_last() =~= decimal(a / 10));
        assert(decimal(b).drop_last() =~= decimal(b / 10));
        assert(decimal(a) == decimal(a / 10).push(digit(a % 10)));
        assert(decimal(b) == decimal(b / 10).push(digit(b % 10)));
        assert(decimal(a).last() == digit(a % 10));
        assert(decimal(b).last() == digit(b % 10));
        decimals_are_apart(a / 10, b / 10);
        lemma_digit(a % 10, b % 10);
    }
}

/// The name of a renamed binder.
pub open spec fn suffixed(name: Seq<char>, k: nat) -> Seq<char> {
    name + "#"@ + decimal(k)
}

proof fn lemma_mark(name: Seq<char>, k: nat)
    ensures
        suffixed(name, k).len() > name.len(),
        suffixed(name, k)[name.len() as int] == '#',
        suffixed(name, k).take(name.len() as int) == name,
        suffixed(name, k).skip((name.len() + 1) as int) == decimal(k),
        !is_written(suffixed(name, k)),
{
    reveal_strlit("#");
    let s = suffixed(name, k);
    assert(s[name.len() as int] == '#');
    assert(s.take(name.len() as int) =~= name);
    assert(s.skip((name.len() + 1) as int) =~= decimal(k));
    assert(s.contains('#'));
}

proof fn lemma_decimal_has_no_mark(n: nat)
    ensures
        !decimal(n).contains('#'),
    decreases n,
{
    if n < 10 {
        assert(decimal(n) == seq![digit(n)]);
    } else {
        lemma_decimal_has_no_mark(n / 10);
        let s = decimal(n);
        let front = decimal(n / 10);
        assert(s == front.push(digit(n % 10)));
        if s.contains('#') {
            let i = choose|i: int| 0 <= i < s.len() && s[i] == '#';
            if i < front.len() {
                assert(front[i] == '#');
            }
        }
    }
}

/// Renamed binders are not under the name of a temporary.
proof fn lemma_suffixed_is_no_temp(name: Seq<char>, k: nat)
    ensures
        !is_temp(suffixed(name, k)),
{
    let s = suffixed(name, k);
    lemma_mark(name, k);
    if is_temp(s) {
        let n = choose|n: u64| s == #[trigger] temp_name(n);
        reveal_strlit("$rc");
        lemma_decimal_has_no_mark(n as nat);
        let i = name.len() as int;
        assert(s[i] == '#');
        if i >= 3 {
            assert(decimal(n as nat)[i - 3] == '#');
        }
    }
}

/// Renamed binders are apart where their names or their numbers are.
proof fn lemma_suffixed(a: Seq<char>, i: nat, b: Seq<char>, j: nat)
    requires
        is_written(a),
        is_written(b),
        suffixed(a, i) == suffixed(b, j),
    ensures
        a == b,
        i == j,
{
    lemma_mark(a, i);
    lemma_mark(b, j);
    let s = suffixed(a, i);
    if a.len() < b.len() {
        assert(b[a.len() as int] == s[a.len() as int]);
        assert(b.contains('#'));
    } else if b.len() < a.len() {
        assert(a[b.len() as int] == s[b.len() as int]);
        assert(a.contains('#'));
    }
    decimals_are_apart(i, j);
}

/// The unique names of a scope.
pub open spec fn uniques(scope: Scope) -> Seq<Seq<char>> {
    scope.map_values(|b: (Seq<char>, Seq<char>)| b.1)
}

/// The last number that a name has been given.
spec fn count_of(used: Suffixes, name: Seq<char>) -> nat {
    if used.dom().contains(name) {
        used[name] as nat
    } else {
        0
    }
}

/// Whether a binder is under its own name or under one that has been given.
spec fn is_given(used: Suffixes, b: (Seq<char>, Seq<char>)) -> bool {
    is_written(b.0) && (b.1 == b.0 || exists|k: nat|
        1 <= k <= count_of(used, b.0) && b.1 == #[trigger] suffixed(b.0, k))
}

/// Whether every binder in scope is under a name that has been given.
spec fn given(used: Suffixes, scope: Scope) -> bool {
    forall|i: int| 0 <= i < scope.len() ==> is_given(used, #[trigger] scope[i])
}

/// Whether no name has been given a number above `b`.
spec fn bounded(used: Suffixes, b: nat) -> bool {
    forall|name: Seq<char>| #[trigger] count_of(used, name) <= b
}

/// Whether no name has lost a number.
spec fn grown(used: Suffixes, after: Suffixes) -> bool {
    forall|name: Seq<char>| count_of(used, name) <= #[trigger] count_of(after, name)
}

proof fn lemma_given_grows(used: Suffixes, after: Suffixes, scope: Scope)
    requires
        given(used, scope),
        grown(used, after),
    ensures
        given(after, scope),
{
    assert forall|i: int| 0 <= i < scope.len() implies is_given(after, #[trigger] scope[i]) by {
        let b = scope[i];
        assert(is_given(used, b));
        if b.1 != b.0 {
            let k = choose|k: nat|
                1 <= k <= count_of(used, b.0) && b.1 == #[trigger] suffixed(b.0, k);
            assert(count_of(used, b.0) <= count_of(after, b.0));
            assert(b.1 == suffixed(b.0, k));
        }
    }
}

/// A new binder gets a name that no visible one has.
proof fn lemma_bind(used: Suffixes, scope: Scope, name: Seq<char>, b: nat)
    requires
        given(used, scope),
        bounded(used, b),
        is_written(name),
        b < u64::MAX,
    ensures
        ({
            let unique = unique_name(used, scope, name);
            let after = after_bind(used, scope, name);
            &&& !uniques(scope).contains(unique)
            &&& !is_temp(unique)
            &&& given(after, scope.push((name, unique)))
            &&& bounded(after, b + 1)
            &&& grown(used, after)
            &&& uniques(scope.push((name, unique))) == uniques(scope).push(unique)
        }),
{
    let unique = unique_name(used, scope, name);
    let after = after_bind(used, scope, name);
    let all = uniques(scope);
    let c = count_of(used, name);
    assert(c <= b);
    if visible(scope, name) {
        lemma_suffixed_is_no_temp(name, next_suffix(used, name) as nat);
    }
    assert(next_suffix(used, name) as nat == c + 1);
    if all.contains(unique) {
        let i = choose|i: int| 0 <= i < all.len() && all[i] == unique;
        let other = scope[i];
        assert(other.1 == unique);
        assert(is_given(used, other));
        if visible(scope, name) {
            assert(unique == suffixed(name, c + 1));
            lemma_mark(name, c + 1);
            if other.1 != other.0 {
                let k = choose|k: nat|
                    1 <= k <= count_of(used, other.0) && other.1 == #[trigger] suffixed(
                        other.0,
                        k,
                    );
                lemma_suffixed(name, c + 1, other.0, k);
            }
        } else {
            assert(unique == name);
            if other.1 != other.0 {
                let k = choose|k: nat|
                    1 <= k <= count_of(used, other.0) && other.1 == #[trigger] suffixed(
                        other.0,
                        k,
                    );
                lemma_mark(other.0, k);
            } else {
                assert(visible(scope, name));
            }
        }
        assert(false);
    }
    assert(grown(used, after)) by {
        assert forall|m: Seq<char>| count_of(used, m) <= #[trigger] count_of(after, m) by {}
    }
    assert(bounded(after, b + 1)) by {
        assert forall|m: Seq<char>| #[trigger] count_of(after, m) <= b + 1 by {
            assert(count_of(used, m) <= b);
        }
    }
    lemma_given_grows(used, after, scope);
    let grew = scope.push((name, unique));
    assert forall|i: int| 0 <= i < grew.len() implies is_given(after, #[trigger] grew[i]) by {
        if i < scope.len() {
            assert(grew[i] == scope[i]);
        } else if visible(scope, name) {
            assert(count_of(after, name) == c + 1);
            assert(unique == suffixed(name, c + 1));
        }
    }
    assert(uniques(grew) =~= all.push(unique));
}

/// What a name resolves to is no temporary, where the name is none.
proof fn lemma_resolved(used: Suffixes, scope: Scope, name: Seq<char>)
    requires
        given(used, scope),
        !is_temp(name),
    ensures
        !is_temp(resolve(scope, name)),
    decreases scope.len(),
{
    if scope.len() > 0 {
        let last = scope[scope.len() - 1];
        assert(is_given(used, last));
        if last.1 != last.0 {
            let k = choose|k: nat|
                1 <= k <= count_of(used, last.0) && last.1 == #[trigger] suffixed(last.0, k);
            lemma_suffixed_is_no_temp(last.0, k);
        }
        let front = scope.drop_last();
        assert forall|i: int| 0 <= i < front.len() implies is_given(used, #[trigger] front[i]) by {
            assert(front[i] == scope[i]);
        }
        lemma_resolved(used, front, name);
    }
}

/// Whether a scope begins with another.
spec fn begins(big: Scope, small: Scope) -> bool {
    small.len() <= big.len() && forall|i: int| 0 <= i < small.len() ==> #[trigger] big[i] == small[i]
}

proof fn lemma_begins(used: Suffixes, big: Scope, small: Scope)
    requires
        begins(big, small),
        given(used, big),
    ensures
        given(used, small),
{
    assert forall|i: int| 0 <= i < small.len() implies is_given(used, #[trigger] small[i]) by {
        assert(is_given(used, big[i]));
    }
}

proof fn lemma_params(used: Suffixes, scope: Scope, s: Seq<Bind>, b: nat)
    requires
        given(used, scope),
        bounded(used, b),
        plain_params(s),
        b + s.len() <= u64::MAX,
    ensures
        ({
            let r = bind_params(used, scope, s);
            &&& params_apart(r.binds, uniques(scope))
            &&& uniques(r.scope) == param_vis(uniques(scope), r.binds)
            &&& given(r.used, r.scope)
            &&& bounded(r.used, b + s.len())
            &&& grown(used, r.used)
            &&& begins(r.scope, scope)
            &&& r.binds.len() == s.len()
        }),
    decreases s.len(),
{
    if s.len() > 0 {
        let front = s.drop_last();
        assert forall|i: int| 0 <= i < front.len() implies is_written(
            (#[trigger] front[i]).name,
        ) by {
            assert(is_written(s[i].name));
        }
        lemma_params(used, scope, front, b);
        let r = bind_params(used, scope, front);
        assert(is_written(s[s.len() - 1].name));
        lemma_bind(r.used, r.scope, s.last().name, b + front.len());
        let all = bind_params(used, scope, s);
        assert(all.binds.drop_last() =~= r.binds);
        lemma_grown(used, r.used, all.used);
    }
}

proof fn lemma_grown(a: Suffixes, b: Suffixes, c: Suffixes)
    requires
        grown(a, b),
        grown(b, c),
    ensures
        grown(a, c),
{
    assert forall|name: Seq<char>| count_of(a, name) <= #[trigger] count_of(c, name) by {
        assert(count_of(a, name) <= count_of(b, name));
    }
}

proof fn lemma_fields(used: Suffixes, scope: Scope, s: Seq<Option<Bind>>, b: nat)
    requires
        given(used, scope),
        bounded(used, b),
        forall|i: int|
            0 <= i < s.len() ==> (#[trigger] s[i] matches Some(f) ==> is_written(f.name)),
        b + s.len() <= u64::MAX,
    ensures
        ({
            let r = bind_fields(used, scope, s);
            &&& fields_apart(r.binds, uniques(scope))
            &&& uniques(r.scope) == field_vis(uniques(scope), r.binds)
            &&& given(r.used, r.scope)
            &&& bounded(r.used, b + s.len())
            &&& grown(used, r.used)
            &&& begins(r.scope, scope)
            &&& r.binds.len() == s.len()
        }),
    decreases s.len(),
{
    if s.len() > 0 {
        let front = s.drop_last();
        assert forall|i: int| 0 <= i < front.len() implies (#[trigger] front[i] matches Some(f)
            ==> is_written(f.name)) by {
            assert(front[i] == s[i]);
        }
        lemma_fields(used, scope, front, b);
        let r = bind_fields(used, scope, front);
        let all = bind_fields(used, scope, s);
        assert(all.binds.drop_last() =~= r.binds);
        if let Some(f) = s.last() {
            assert(s[s.len() - 1] == Some(f));
            lemma_bind(r.used, r.scope, f.name, b + front.len());
        } else {
            lemma_bounded(r.used, b + front.len(), b + s.len());
        }
        lemma_grown(used, r.used, all.used);
    }
}

proof fn lemma_bounded(used: Suffixes, a: nat, b: nat)
    requires
        bounded(used, a),
        a <= b,
    ensures
        bounded(used, b),
{
    assert forall|name: Seq<char>| #[trigger] count_of(used, name) <= b by {
        assert(count_of(used, name) <= a);
    }
}

proof fn lemma_pattern(used: Suffixes, scope: Scope, p: Pat, b: nat)
    requires
        given(used, scope),
        bounded(used, b),
        plain_pattern(p),
        b + pattern_binders(p) <= u64::MAX,
    ensures
        ({
            let r = rename_pattern(used, scope, p);
            &&& pattern_apart(r.pattern, uniques(scope))
            &&& uniques(r.scope) == pattern_vis(uniques(scope), r.pattern)
            &&& given(r.used, r.scope)
            &&& bounded(r.used, b + pattern_binders(p))
            &&& grown(used, r.used)
            &&& begins(r.scope, scope)
        }),
{
    match p {
        Pat::Variant { bindings, .. } => lemma_fields(used, scope, bindings, b),
        Pat::Wildcard { binding } => match binding {
            Some(f) => lemma_bind(used, scope, f.name, b),
            None => lemma_bounded(used, b, b + 1),
        },
    }
}

/// What renaming keeps.
spec fn holds(used: Suffixes, scope: Scope, after: Suffixes, b: nat) -> bool {
    &&& given(after, scope)
    &&& bounded(after, b)
    &&& grown(used, after)
}

proof fn lemma_renamed(used: Suffixes, scope: Scope, e: Node, b: nat)
    requires
        given(used, scope),
        bounded(used, b),
        plain(e),
        b + binders(e) <= u64::MAX,
    ensures
        apart(rename(used, scope, e).to, uniques(scope)),
        holds(used, scope, rename(used, scope, e).used, b + binders(e)),
    decreases e,
{
    match e {
        Node::Let { name, value_ty, value, next } => {
            lemma_renamed(used, scope, *value, b);
            let v = rename(used, scope, *value);
            let b1 = b + binders(*value);
            lemma_bind(v.used, scope, name, b1);
            let unique = unique_name(v.used, scope, name);
            let inner = scope.push((name, unique));
            let bound = after_bind(v.used, scope, name);
            lemma_renamed(bound, inner, *next, b1 + 1);
            let n = rename(bound, inner, *next);
            assert(begins(inner, scope));
            lemma_begins(n.used, inner, scope);
            lemma_grown(v.used, bound, n.used);
            lemma_grown(used, v.used, n.used);
        },
        Node::Var { name, .. } => lemma_resolved(used, scope, name),
        Node::Fn { params, captures, body, .. } => {
            let read = rename_captures(scope, captures);
            assert forall|i: int| 0 <= i < read.len() implies !is_temp(
                (#[trigger] read[i]).name,
            ) by {
                assert(!is_temp(captures[i].name));
                lemma_resolved(used, scope, captures[i].name);
            }
            lemma_params(used, scope, params, b);
            let p = bind_params(used, scope, params);
            lemma_renamed(p.used, p.scope, *body, b + params.len());
            let r = rename(p.used, p.scope, *body);
            lemma_begins(r.used, p.scope, scope);
            lemma_grown(used, p.used, r.used);
        },
        Node::Match { scrutinee, arms, .. } => {
            lemma_renamed(used, scope, *scrutinee, b);
            let s = rename(used, scope, *scrutinee);
            lemma_renamed_arms(s.used, scope, arms, b + binders(*scrutinee));
            lemma_grown(used, s.used, rename_arms(s.used, scope, arms).used);
        },
        Node::Try { body, arms, .. } => {
            lemma_renamed(used, scope, *body, b);
            let s = rename(used, scope, *body);
            lemma_renamed_arms(s.used, scope, arms, b + binders(*body));
            lemma_grown(used, s.used, rename_arms(s.used, scope, arms).used);
        },
        Node::Array { elems, .. } => {
            lemma_renamed_all(used, scope, elems, b);
        },
        Node::Call { callee, args, .. } => {
            lemma_renamed(used, scope, *callee, b);
            let r0 = rename(used, scope, *callee);
            let b0 = b + binders(*callee);
            lemma_renamed_all(r0.used, scope, args, b0);
        },
        Node::Platform { args, .. } => {
            lemma_renamed_all(used, scope, args, b);
        },
        Node::Intrinsic { args, .. } => {
            lemma_renamed_all(used, scope, args, b);
        },
        Node::TailSelfCall { args, .. } => {
            lemma_renamed_all(used, scope, args, b);
        },
        Node::If { cond, then, els, .. } => {
            lemma_renamed(used, scope, *cond, b);
            let r0 = rename(used, scope, *cond);
            let b0 = b + binders(*cond);
            lemma_renamed(r0.used, scope, *then, b0);
            let r1 = rename(r0.used, scope, *then);
            let b1 = b0 + binders(*then);
            lemma_renamed(r1.used, scope, *els, b1);
        },
        Node::Binary { left, right, .. } => {
            lemma_renamed(used, scope, *left, b);
            let r0 = rename(used, scope, *left);
            let b0 = b + binders(*left);
            lemma_renamed(r0.used, scope, *right, b0);
        },
        Node::Concat { left, right } => {
            lemma_renamed(used, scope, *left, b);
            let r0 = rename(used, scope, *left);
            let b0 = b + binders(*left);
            lemma_renamed(r0.used, scope, *right, b0);
        },
        Node::EnumValue { payload, .. } => {
            lemma_renamed_all(used, scope, payload, b);
        },
        Node::RecordValue { fields, .. } => {
            lemma_renamed_all(used, scope, fields, b);
        },
        Node::FieldAccess { target, .. } => {
            lemma_renamed(used, scope, *target, b);
        },
        Node::Throw { value } => {
            lemma_renamed(used, scope, *value, b);
        },
        Node::Question { value, .. } => {
            lemma_renamed(used, scope, *value, b);
        },
        Node::Panic { message } => {
            lemma_renamed(used, scope, *message, b);
        },
        Node::CharFromCode(value) => {
            lemma_renamed(used, scope, *value, b);
        },
        Node::StringFromChar(value) => {
            lemma_renamed(used, scope, *value, b);
        },
        Node::Retain { value } => {
            lemma_renamed(used, scope, *value, b);
        },
        Node::Release { next, .. } => {
            lemma_renamed(used, scope, *next, b);
        },
        _ => {
            lemma_bounded(used, b, b);
        },
    }
}

proof fn lemma_renamed_all(used: Suffixes, scope: Scope, s: Seq<Node>, b: nat)
    requires
        given(used, scope),
        bounded(used, b),
        plain_all(s),
        b + binders_all(s) <= u64::MAX,
    ensures
        apart_all(rename_all(used, scope, s).to, uniques(scope)),
        holds(used, scope, rename_all(used, scope, s).used, b + binders_all(s)),
    decreases s,
{
    if s.len() > 0 {
        lemma_renamed_all(used, scope, s.drop_last(), b);
        let init = rename_all(used, scope, s.drop_last());
        lemma_renamed(init.used, scope, s.last(), b + binders_all(s.drop_last()));
        let last = rename(init.used, scope, s.last());
        assert(init.to.push(last.to).drop_last() =~= init.to);
        lemma_grown(used, init.used, last.used);
    }
}

proof fn lemma_renamed_arm(used: Suffixes, scope: Scope, arm: ArmNode, b: nat)
    requires
        given(used, scope),
        bounded(used, b),
        plain_arm(arm),
        b + binders_arm(arm) <= u64::MAX,
    ensures
        apart_arm(rename_arm(used, scope, arm).to, uniques(scope)),
        holds(used, scope, rename_arm(used, scope, arm).used, b + binders_arm(arm)),
    decreases arm,
{
    lemma_pattern(used, scope, arm.pattern, b);
    let p = rename_pattern(used, scope, arm.pattern);
    let b1 = b + pattern_binders(arm.pattern);
    match arm.guard {
        Some(guard) => {
            lemma_renamed(p.used, p.scope, *guard, b1);
            let g = rename(p.used, p.scope, *guard);
            lemma_renamed(g.used, p.scope, *arm.body, b1 + binders(*guard));
            let r = rename(g.used, p.scope, *arm.body);
            lemma_begins(r.used, p.scope, scope);
            lemma_grown(used, p.used, g.used);
            lemma_grown(used, g.used, r.used);
        },
        None => {
            lemma_renamed(p.used, p.scope, *arm.body, b1);
            let r = rename(p.used, p.scope, *arm.body);
            lemma_begins(r.used, p.scope, scope);
            lemma_grown(used, p.used, r.used);
        },
    }
}

proof fn lemma_renamed_arms(used: Suffixes, scope: Scope, s: Seq<ArmNode>, b: nat)
    requires
        given(used, scope),
        bounded(used, b),
        plain_arms(s),
        b + binders_arms(s) <= u64::MAX,
    ensures
        apart_arms(rename_arms(used, scope, s).to, uniques(scope)),
        holds(used, scope, rename_arms(used, scope, s).used, b + binders_arms(s)),
    decreases s,
{
    if s.len() > 0 {
        lemma_renamed_arms(used, scope, s.drop_last(), b);
        let init = rename_arms(used, scope, s.drop_last());
        lemma_renamed_arm(init.used, scope, s.last(), b + binders_arms(s.drop_last()));
        let last = rename_arm(init.used, scope, s.last());
        assert(init.to.push(last.to).drop_last() =~= init.to);
        lemma_grown(used, init.used, last.used);
    }
}

/// Whether no name has been given a number above `b`.
pub open spec fn suffixes_within(used: Suffixes, b: nat) -> bool {
    forall|name: Seq<char>| #[trigger] used.dom().contains(name) ==> used[name] <= b
}

/// In a renamed function no binder has a name that is visible where it stands,
/// given that its names can be written in a program and that numbers do not run
/// out.
pub proof fn renamed_binders_are_apart(used: Suffixes, f: FnNode, b: nat)
    requires
        suffixes_within(used, b),
        plain_params(f.params),
        plain(f.body),
        b + f.params.len() + binders(f.body) <= u64::MAX,
    ensures
        ({
            let r = rename_fn(used, f).to;
            &&& params_apart(r.params, Seq::empty())
            &&& apart(r.body, param_vis(Seq::empty(), r.params))
        }),
        suffixes_within(rename_fn(used, f).used, b + f.params.len() + binders(f.body)),
{
    let none: Scope = Seq::empty();
    assert(bounded(used, b)) by {
        assert forall|name: Seq<char>| #[trigger] count_of(used, name) <= b by {}
    }
    assert(uniques(none) =~= Seq::empty());
    lemma_params(used, none, f.params, b);
    let p = bind_params(used, none, f.params);
    let total = b + f.params.len() + binders(f.body);
    lemma_renamed(p.used, p.scope, f.body, b + f.params.len());
    let after = rename_fn(used, f).used;
    assert forall|name: Seq<char>| #[trigger] after.dom().contains(name) implies after[name]
        <= total by {
        assert(count_of(after, name) <= total);
    }
}

} // verus!
