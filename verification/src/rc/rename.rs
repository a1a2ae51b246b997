//! Alpha-renaming.
//!
//! `Release` targets a binding by name, so shadowing (`let x = f(x)`, a match
//! arm binding over an outer `let`) must be resolved first: every binder that
//! shadows a visible name gets a fresh `name#N`. `#` cannot appear in an Emela
//! identifier, so renamed binders never collide with user names.

use vstd::prelude::*;

use crate::ir::{
    arm_nodes, capture_binds, nodes, opt_bind, opt_binds, param_binds, ArmNode, Bind, IrArm,
    IrCapture, IrExpr, IrParam, IrPattern, Node, Pat,
};
use crate::strings::{decimal, push_decimal, same};
use crate::types::Type;

verus! {

/// The visible binders, innermost last: the written name and the unique one.
pub type Scope = Seq<(Seq<char>, Seq<char>)>;

/// How many renamed binders each name has had.
pub type Suffixes = Map<Seq<char>, u64>;

/// The counter value after `n`.
pub open spec fn next_count(n: u64) -> u64 {
    if n == u64::MAX {
        0
    } else {
        (n + 1) as u64
    }
}

/// The counter value after `n`, wrapping at the end of the range.
pub fn advance(n: u64) -> (r: u64)
    ensures
        r == next_count(n),
{
    if n == u64::MAX {
        0
    } else {
        n + 1
    }
}

/// Whether `name` is visible in `scope`.
pub open spec fn visible(scope: Scope, name: Seq<char>) -> bool {
    exists|i: int| 0 <= i < scope.len() && (#[trigger] scope[i]).0 == name
}

/// The unique name that `name` resolves to: that of its innermost binder, or
/// `name` itself when nothing binds it.
pub open spec fn resolve(scope: Scope, name: Seq<char>) -> Seq<char>
    decreases scope.len(),
{
    if scope.len() == 0 {
        name
    } else if scope.last().0 == name {
        scope.last().1
    } else {
        resolve(scope.drop_last(), name)
    }
}

/// The suffix a renamed binder of `name` gets next.
pub open spec fn next_suffix(used: Suffixes, name: Seq<char>) -> u64 {
    next_count(
        if used.dom().contains(name) {
            used[name]
        } else {
            0
        },
    )
}

/// The unique name of a new binder `name`.
pub open spec fn unique_name(used: Suffixes, scope: Scope, name: Seq<char>) -> Seq<char> {
    if visible(scope, name) {
        name + "#"@ + decimal(next_suffix(used, name) as nat)
    } else {
        name
    }
}

/// The suffix counts after binding `name`.
pub open spec fn after_bind(used: Suffixes, scope: Scope, name: Seq<char>) -> Suffixes {
    if visible(scope, name) {
        used.insert(name, next_suffix(used, name))
    } else {
        used
    }
}

/// A renamed list of binders, with the counts and the scope after it.
#[verifier::ext_equal]
pub struct Bound<T> {
    pub used: Suffixes,
    pub scope: Scope,
    pub binds: Seq<T>,
}

/// Binds a list of parameters, left to right.
pub open spec fn bind_params(used: Suffixes, scope: Scope, binds: Seq<Bind>) -> Bound<Bind>
    decreases binds.len(),
{
    if binds.len() == 0 {
        Bound { used, scope, binds: Seq::empty() }
    } else {
        let b = bind_params(used, scope, binds.drop_last());
        let name = binds.last().name;
        let unique = unique_name(b.used, b.scope, name);
        Bound {
            used: after_bind(b.used, b.scope, name),
            scope: b.scope.push((name, unique)),
            binds: b.binds.push(Bind { name: unique, ty: binds.last().ty }),
        }
    }
}

/// Binds the named fields of a variant pattern, left to right.
pub open spec fn bind_fields(used: Suffixes, scope: Scope, binds: Seq<Option<Bind>>) -> Bound<
    Option<Bind>,
>
    decreases binds.len(),
{
    if binds.len() == 0 {
        Bound { used, scope, binds: Seq::empty() }
    } else {
        let b = bind_fields(used, scope, binds.drop_last());
        match binds.last() {
            Some(bind) => {
                let unique = unique_name(b.used, b.scope, bind.name);
                Bound {
                    used: after_bind(b.used, b.scope, bind.name),
                    scope: b.scope.push((bind.name, unique)),
                    binds: b.binds.push(Some(Bind { name: unique, ty: bind.ty })),
                }
            },
            None => Bound { used: b.used, scope: b.scope, binds: b.binds.push(None) },
        }
    }
}

/// A renamed expression, with the counts after it.
pub struct Renamed<T> {
    pub used: Suffixes,
    pub to: T,
}

/// A renamed pattern, with the counts and the scope of its arm.
pub struct RenamedPat {
    pub used: Suffixes,
    pub scope: Scope,
    pub pattern: Pat,
}

/// Renames the binders of a pattern.
pub open spec fn rename_pattern(used: Suffixes, scope: Scope, pattern: Pat) -> RenamedPat {
    match pattern {
        Pat::Variant { variant, tag, bindings } => {
            let b = bind_fields(used, scope, bindings);
            RenamedPat {
                used: b.used,
                scope: b.scope,
                pattern: Pat::Variant { variant, tag, bindings: b.binds },
            }
        },
        Pat::Wildcard { binding } => match binding {
            Some(bind) => {
                let unique = unique_name(used, scope, bind.name);
                RenamedPat {
                    used: after_bind(used, scope, bind.name),
                    scope: scope.push((bind.name, unique)),
                    pattern: Pat::Wildcard { binding: Some(Bind { name: unique, ty: bind.ty }) },
                }
            },
            None => RenamedPat { used, scope, pattern },
        },
    }
}

/// Renames the captures of a lambda. A capture names the enclosing binding
/// (backends read it in the enclosing scope and re-bind it under the same name
/// in the lambda), so it follows the enclosing renaming.
pub open spec fn rename_captures(scope: Scope, captures: Seq<Bind>) -> Seq<Bind> {
    captures.map_values(|c: Bind| Bind { name: resolve(scope, c.name), ty: c.ty })
}

/// Renames an expression: every binder that shadows a visible name gets a
/// unique one, and every read follows its binder.
pub open spec fn rename(used: Suffixes, scope: Scope, e: Node) -> Renamed<Node>
    decreases e,
{
    match e {
        Node::Var { name, ty } => Renamed { used, to: Node::Var { name: resolve(scope, name), ty } },
        Node::Let { name, value_ty, value, next } => {
            let v = rename(used, scope, *value);
            let unique = unique_name(v.used, scope, name);
            let n = rename(
                after_bind(v.used, scope, name),
                scope.push((name, unique)),
                *next,
            );
            Renamed {
                used: n.used,
                to: Node::Let {
                    name: unique,
                    value_ty,
                    value: Box::new(v.to),
                    next: Box::new(n.to),
                },
            }
        },
        Node::Fn { params, ret, throws, effects, captures, body } => {
            let b = bind_params(used, scope, params);
            let r = rename(b.used, b.scope, *body);
            Renamed {
                used: r.used,
                to: Node::Fn {
                    params: b.binds,
                    ret,
                    throws,
                    effects,
                    captures: rename_captures(scope, captures),
                    body: Box::new(r.to),
                },
            }
        },
        Node::Match { scrutinee, arms, ty } => {
            let s = rename(used, scope, *scrutinee);
            let a = rename_arms(s.used, scope, arms);
            Renamed {
                used: a.used,
                to: Node::Match { scrutinee: Box::new(s.to), arms: a.to, ty },
            }
        },
        Node::Try { body, arms, ty, err_name } => {
            let b = rename(used, scope, *body);
            let a = rename_arms(b.used, scope, arms);
            Renamed {
                used: a.used,
                to: Node::Try { body: Box::new(b.to), arms: a.to, ty, err_name },
            }
        },
        Node::Array { elem_ty, elems } => {
            let r = rename_all(used, scope, elems);
            Renamed { used: r.used, to: Node::Array { elem_ty, elems: r.to } }
        },
        Node::Call { callee, args, ret } => {
            let c = rename(used, scope, *callee);
            let r = rename_all(c.used, scope, args);
            Renamed {
                used: r.used,
                to: Node::Call { callee: Box::new(c.to), args: r.to, ret },
            }
        },
        Node::Platform { name, args, ret, throws } => {
            let r = rename_all(used, scope, args);
            Renamed { used: r.used, to: Node::Platform { name, args: r.to, ret, throws } }
        },
        Node::Intrinsic { name, args, ret } => {
            let r = rename_all(used, scope, args);
            Renamed { used: r.used, to: Node::Intrinsic { name, args: r.to, ret } }
        },
        Node::TailSelfCall { args, ty } => {
            let r = rename_all(used, scope, args);
            Renamed { used: r.used, to: Node::TailSelfCall { args: r.to, ty } }
        },
        Node::If { cond, then, els, ty } => {
            let c = rename(used, scope, *cond);
            let t = rename(c.used, scope, *then);
            let f = rename(t.used, scope, *els);
            Renamed {
                used: f.used,
                to: Node::If {
                    cond: Box::new(c.to),
                    then: Box::new(t.to),
                    els: Box::new(f.to),
                    ty,
                },
            }
        },
        Node::Binary { op, ty, left, right } => {
            let l = rename(used, scope, *left);
            let r = rename(l.used, scope, *right);
            Renamed {
                used: r.used,
                to: Node::Binary { op, ty, left: Box::new(l.to), right: Box::new(r.to) },
            }
        },
        Node::Concat { left, right } => {
            let l = rename(used, scope, *left);
            let r = rename(l.used, scope, *right);
            Renamed {
                used: r.used,
                to: Node::Concat { left: Box::new(l.to), right: Box::new(r.to) },
            }
        },
        Node::EnumValue { ty, variant, tag, payload } => {
            let r = rename_all(used, scope, payload);
            Renamed { used: r.used, to: Node::EnumValue { ty, variant, tag, payload: r.to } }
        },
        Node::RecordValue { ty, fields } => {
            let r = rename_all(used, scope, fields);
            Renamed { used: r.used, to: Node::RecordValue { ty, fields: r.to } }
        },
        Node::FieldAccess { target, index, field_ty } => {
            let r = rename(used, scope, *target);
            Renamed {
                used: r.used,
                to: Node::FieldAccess { target: Box::new(r.to), index, field_ty },
            }
        },
        Node::Throw { value } => {
            let r = rename(used, scope, *value);
            Renamed { used: r.used, to: Node::Throw { value: Box::new(r.to) } }
        },
        Node::Question { value, mode, ty } => {
            let r = rename(used, scope, *value);
            Renamed { used: r.used, to: Node::Question { value: Box::new(r.to), mode, ty } }
        },
        Node::Panic { message } => {
            let r = rename(used, scope, *message);
            Renamed { used: r.used, to: Node::Panic { message: Box::new(r.to) } }
        },
        Node::CharFromCode(value) => {
            let r = rename(used, scope, *value);
            Renamed { used: r.used, to: Node::CharFromCode(Box::new(r.to)) }
        },
        Node::StringFromChar(value) => {
            let r = rename(used, scope, *value);
            Renamed { used: r.used, to: Node::StringFromChar(Box::new(r.to)) }
        },
        Node::Retain { value } => {
            let r = rename(used, scope, *value);
            Renamed { used: r.used, to: Node::Retain { value: Box::new(r.to) } }
        },
        Node::Release { name, ty, next } => {
            let r = rename(used, scope, *next);
            Renamed { used: r.used, to: Node::Release { name, ty, next: Box::new(r.to) } }
        },
        Node::Int(_) | Node::Float(_) | Node::Bool(_) | Node::String(_) | Node::Char(_)
        | Node::Unit | Node::FunctionRef { .. } => Renamed { used, to: e },
    }
}

/// Renames a list of expressions, left to right.
pub open spec fn rename_all(used: Suffixes, scope: Scope, s: Seq<Node>) -> Renamed<Seq<Node>>
    decreases s,
{
    if s.len() == 0 {
        Renamed { used, to: Seq::empty() }
    } else {
        let init = rename_all(used, scope, s.drop_last());
        let last = rename(init.used, scope, s.last());
        Renamed { used: last.used, to: init.to.push(last.to) }
    }
}

/// Renames an arm: its pattern's binders are visible in its guard and body.
pub open spec fn rename_arm(used: Suffixes, scope: Scope, arm: ArmNode) -> Renamed<ArmNode>
    decreases arm,
{
    let p = rename_pattern(used, scope, arm.pattern);
    match arm.guard {
        Some(guard) => {
            let g = rename(p.used, p.scope, *guard);
            let b = rename(g.used, p.scope, *arm.body);
            Renamed {
                used: b.used,
                to: ArmNode {
                    pattern: p.pattern,
                    guard: Some(Box::new(g.to)),
                    body: Box::new(b.to),
                },
            }
        },
        None => {
            let b = rename(p.used, p.scope, *arm.body);
            Renamed {
                used: b.used,
                to: ArmNode { pattern: p.pattern, guard: None, body: Box::new(b.to) },
            }
        },
    }
}

/// Renames a list of arms, top to bottom.
pub open spec fn rename_arms(used: Suffixes, scope: Scope, s: Seq<ArmNode>) -> Renamed<
    Seq<ArmNode>,
>
    decreases s,
{
    if s.len() == 0 {
        Renamed { used, to: Seq::empty() }
    } else {
        let init = rename_arms(used, scope, s.drop_last());
        let last = rename_arm(init.used, scope, s.last());
        Renamed { used: last.used, to: init.to.push(last.to) }
    }
}

/// The visible binders of a running renaming.
pub struct Env {
    pub binders: Vec<(String, String)>,
}

impl Env {
    pub open spec fn view(&self) -> Scope {
        self.binders@.map_values(|b: (String, String)| (b.0@, b.1@))
    }

    /// The scope with no binder.
    pub fn new() -> (r: Env)
        ensures
            r@ == Seq::<(Seq<char>, Seq<char>)>::empty(),
    {
        let r = Env { binders: Vec::new() };
        assert(r@ =~= Seq::<(Seq<char>, Seq<char>)>::empty());
        r
    }

    fn is_visible(&self, name: &str) -> (r: bool)
        ensures
            r == visible(self@, name@),
    {
        let mut i: usize = 0;
        while i < self.binders.len()
            invariant
                i <= self.binders.len(),
                forall|j: int| 0 <= j < i ==> (#[trigger] self@[j]).0 != name@,
            decreases self.binders.len() - i,
        {
            if same(self.binders[i].0.as_str(), name) {
                assert(self@[i as int].0 == name@);
                return true;
            }
            i += 1;
        }
        false
    }

    fn lookup(&self, name: &String) -> (r: String)
        ensures
            r@ == resolve(self@, name@),
    {
        let mut i: usize = self.binders.len();
        assert(self@.take(i as int) =~= self@);
        while i > 0
            invariant
                i <= self.binders.len(),
                resolve(self@, name@) == resolve(self@.take(i as int), name@),
            decreases i,
        {
            let ghost prefix = self@.take(i as int);
            i -= 1;
            proof {
                assert(prefix.drop_last() =~= self@.take(i as int));
                assert(prefix.last() == self@[i as int]);
            }
            if same(self.binders[i].0.as_str(), name.as_str()) {
                return self.binders[i].1.clone();
            }
        }
        name.clone()
    }
}

/// Renames the binders of whole functions apart.
pub struct Renamer {
    pub suffixes: Vec<(String, u64)>,
}

/// What a list of suffix counts says; the last entry of a name counts.
pub open spec fn suffix_map(s: Seq<(String, u64)>) -> Suffixes
    decreases s.len(),
{
    if s.len() == 0 {
        Map::empty()
    } else {
        suffix_map(s.drop_last()).insert(s.last().0@, s.last().1)
    }
}

impl Renamer {
    pub open spec fn view(&self) -> Suffixes {
        suffix_map(self.suffixes@)
    }

    /// A renamer that has renamed nothing.
    pub fn new() -> (r: Renamer)
        ensures
            r@ == Map::<Seq<char>, u64>::empty(),
    {
        Renamer { suffixes: Vec::new() }
    }

    fn count(&self, name: &str) -> (r: u64)
        ensures
            r == if self@.dom().contains(name@) {
                self@[name@]
            } else {
                0
            },
    {
        let mut i: usize = self.suffixes.len();
        let ghost all = self.suffixes@;
        assert(all.take(i as int) =~= all);
        while i > 0
            invariant
                i <= self.suffixes.len(),
                all == self.suffixes@,
                self@.dom().contains(name@) == suffix_map(all.take(i as int)).dom().contains(name@),
                self@.dom().contains(name@) ==> self@[name@] == suffix_map(
                    all.take(i as int),
                )[name@],
            decreases i,
        {
            let ghost prefix = all.take(i as int);
            i -= 1;
            proof {
                assert(prefix.drop_last() =~= all.take(i as int));
                assert(prefix.last() == all[i as int]);
            }
            if same(self.suffixes[i].0.as_str(), name) {
                return self.suffixes[i].1;
            }
        }
        0
    }

    /// Brings `name` into scope under a unique name, which it returns.
    pub fn bind(&mut self, name: String, env: &mut Env) -> (r: String)
        ensures
            r@ == unique_name(old(self)@, old(env)@, name@),
            final(self)@ == after_bind(old(self)@, old(env)@, name@),
            final(env)@ == old(env)@.push((name@, r@)),
            final(env).binders@.len() == old(env).binders@.len() + 1,
            final(env).binders@.take(old(env).binders@.len() as int) == old(env).binders@,
    {
        let unique = if env.is_visible(name.as_str()) {
            let suffix: u64 = advance(self.count(name.as_str()));
            self.suffixes.push((name.clone(), suffix));
            proof {
                assert(self.suffixes@.drop_last() =~= old(self).suffixes@);
            }
            let mut unique = name.clone();
            unique.push_str("#");
            push_decimal(&mut unique, suffix);
            unique
        } else {
            name.clone()
        };
        let kept = unique.clone();
        env.binders.push((name, unique));
        proof {
            assert(env@ =~= old(env)@.push((name@, kept@)));
            assert(env.binders@.take(old(env).binders@.len() as int) =~= old(env).binders@);
        }
        kept
    }

    /// Binds a list of parameters.
    pub fn params(&mut self, params: Vec<IrParam>, env: &mut Env) -> (r: Vec<IrParam>)
        ensures
            ({
                let b = bind_params(old(self)@, old(env)@, param_binds(params@));
                &&& param_binds(r@) == b.binds
                &&& final(self)@ == b.used
                &&& final(env)@ == b.scope
            }),
            final(env).binders@.len() >= old(env).binders@.len(),
            final(env).binders@.take(old(env).binders@.len() as int) == old(env).binders@,
    {
        let ghost all = param_binds(params@);
        let ghost items = params@;
        let ghost env0 = env.binders@;
        let mut out: Vec<IrParam> = Vec::new();
        assert(all.take(0) =~= Seq::<Bind>::empty());
        assert(param_binds(out@) =~= Seq::<Bind>::empty());
        assert(env0.take(env0.len() as int) =~= env0);
        for param in iter: params
            invariant
                iter.seq() == items,
                all == param_binds(items),
                ({
                    let b = bind_params(
                        old(self)@,
                        old(env)@,
                        all.take(iter.index() as int),
                    );
                    &&& param_binds(out@) == b.binds
                    &&& self@ == b.used
                    &&& env@ == b.scope
                }),
                env0 == old(env).binders@,
                env.binders@.len() >= env0.len(),
                env.binders@.take(env0.len() as int) == env0,
        {
            let ghost i = iter.index() as int;
            let ghost env1 = env.binders@;
            let ghost out0 = out@;
            let name = self.bind(param.name, env);
            out.push(IrParam { name, ty: param.ty });
            proof {
                assert(all.take(i + 1).drop_last() =~= all.take(i));
                assert(all.take(i + 1).last() == items[i]@);
                assert(param_binds(out@) =~= param_binds(out0).push(out@.last()@));
                assert(env.binders@.take(env0.len() as int) =~= env.binders@.take(
                    env1.len() as int,
                ).take(env0.len() as int));
            }
        }
        assert(all.take(all.len() as int) =~= all);
        out
    }

    fn fields(&mut self, bindings: Vec<Option<(String, Type)>>, env: &mut Env) -> (r: Vec<
        Option<(String, Type)>,
    >)
        ensures
            ({
                let b = bind_fields(old(self)@, old(env)@, opt_binds(bindings@));
                &&& opt_binds(r@) == b.binds
                &&& final(self)@ == b.used
                &&& final(env)@ == b.scope
            }),
            final(env).binders@.len() >= old(env).binders@.len(),
            final(env).binders@.take(old(env).binders@.len() as int) == old(env).binders@,
    {
        let ghost all = opt_binds(bindings@);
        let ghost items = bindings@;
        let ghost env0 = env.binders@;
        let mut out: Vec<Option<(String, Type)>> = Vec::new();
        assert(all.take(0) =~= Seq::<Option<Bind>>::empty());
        assert(opt_binds(out@) =~= Seq::<Option<Bind>>::empty());
        assert(env0.take(env0.len() as int) =~= env0);
        for binding in iter: bindings
            invariant
                iter.seq() == items,
                all == opt_binds(items),
                ({
                    let b = bind_fields(
                        old(self)@,
                        old(env)@,
                        all.take(iter.index() as int),
                    );
                    &&& opt_binds(out@) == b.binds
                    &&& self@ == b.used
                    &&& env@ == b.scope
                }),
                env0 == old(env).binders@,
                env.binders@.len() >= env0.len(),
                env.binders@.take(env0.len() as int) == env0,
        {
            let ghost i = iter.index() as int;
            let ghost env1 = env.binders@;
            let ghost out0 = out@;
            match binding {
                Some((name, ty)) => {
                    let name = self.bind(name, env);
                    out.push(Some((name, ty)));
                },
                None => {
                    out.push(None);
                },
            }
            proof {
                assert(all.take(i + 1).drop_last() =~= all.take(i));
                assert(all.take(i + 1).last() == opt_bind(items[i]));
                assert(opt_binds(out@) =~= opt_binds(out0).push(opt_bind(out@.last())));
                assert(env.binders@.take(env0.len() as int) =~= env.binders@.take(
                    env1.len() as int,
                ).take(env0.len() as int));
            }
        }
        assert(all.take(all.len() as int) =~= all);
        out
    }

    fn pattern(&mut self, pattern: IrPattern, env: &mut Env) -> (r: IrPattern)
        ensures
            ({
                let p = rename_pattern(old(self)@, old(env)@, pattern@);
                &&& r@ == p.pattern
                &&& final(self)@ == p.used
                &&& final(env)@ == p.scope
            }),
            final(env).binders@.len() >= old(env).binders@.len(),
            final(env).binders@.take(old(env).binders@.len() as int) == old(env).binders@,
    {
        match pattern {
            IrPattern::Variant { variant, tag, bindings } => {
                let bindings = self.fields(bindings, env);
                IrPattern::Variant { variant, tag, bindings }
            },
            IrPattern::Wildcard { binding } => match binding {
                Some((name, ty)) => {
                    let name = self.bind(name, env);
                    IrPattern::Wildcard { binding: Some((name, ty)) }
                },
                None => {
                    assert(env.binders@.take(env.binders@.len() as int) =~= env.binders@);
                    IrPattern::Wildcard { binding: None }
                },
            },
        }
    }

    fn captures(&self, captures: Vec<IrCapture>, env: &Env) -> (r: Vec<IrCapture>)
        ensures
            capture_binds(r@) == rename_captures(env@, capture_binds(captures@)),
    {
        let ghost items = captures@;
        let mut out: Vec<IrCapture> = Vec::new();
        for capture in iter: captures
            invariant
                iter.seq() == items,
                out@.len() == iter.index(),
                forall|j: int|
                    0 <= j < out@.len() ==> (#[trigger] out@[j])@ == (Bind {
                        name: resolve(env@, items[j].name@),
                        ty: items[j].ty@,
                    }),
        {
            let name = env.lookup(&capture.name);
            out.push(IrCapture { name, ty: capture.ty });
        }
        assert(capture_binds(out@) =~= rename_captures(env@, capture_binds(items)));
        out
    }

    fn all(&mut self, exprs: Vec<IrExpr>, env: &mut Env) -> (r: Vec<IrExpr>)
        ensures
            nodes(r@) == rename_all(old(self)@, old(env)@, nodes(exprs@)).to,
            final(self)@ == rename_all(old(self)@, old(env)@, nodes(exprs@)).used,
            final(env).binders@ == old(env).binders@,
        decreases exprs@,
    {
        let ghost all = nodes(exprs@);
        let ghost items = exprs@;
        let mut out: Vec<IrExpr> = Vec::new();
        assert(nodes(out@) =~= rename_all(self@, env@, all.take(0)).to);
        for e in iter: exprs
            invariant
                iter.seq() == items,
                items == exprs@,
                all == nodes(items),
                nodes(out@) == rename_all(old(self)@, old(env)@, all.take(iter.index() as int)).to,
                self@ == rename_all(old(self)@, old(env)@, all.take(iter.index() as int)).used,
                env.binders@ == old(env).binders@,
        {
            let ghost i = iter.index() as int;
            let ghost out0 = out@;
            let e = self.expr(e, env);
            out.push(e);
            proof {
                assert(all.take(i + 1).drop_last() =~= all.take(i));
                assert(all.take(i + 1).last() == items[i]@);
                assert(nodes(out@) =~= nodes(out0).push(e@));
            }
        }
        assert(all.take(all.len() as int) =~= all);
        out
    }

    fn arm(&mut self, arm: IrArm, env: &mut Env) -> (r: IrArm)
        ensures
            r@ == rename_arm(old(self)@, old(env)@, arm@).to,
            final(self)@ == rename_arm(old(self)@, old(env)@, arm@).used,
            final(env).binders@ == old(env).binders@,
        decreases arm,
    {
        let mark: usize = env.binders.len();
        let ghost env0 = env.binders@;
        let pattern = self.pattern(arm.pattern, env);
        let guard = match arm.guard {
            Some(guard) => Some(self.expr(guard, env)),
            None => None,
        };
        let body = self.expr(arm.body, env);
        env.binders.truncate(mark);
        assert(env.binders@ =~= env0);
        IrArm { pattern, guard, body }
    }

    fn arms(&mut self, arms: Vec<IrArm>, env: &mut Env) -> (r: Vec<IrArm>)
        ensures
            arm_nodes(r@) == rename_arms(old(self)@, old(env)@, arm_nodes(arms@)).to,
            final(self)@ == rename_arms(old(self)@, old(env)@, arm_nodes(arms@)).used,
            final(env).binders@ == old(env).binders@,
        decreases arms@,
    {
        let ghost all = arm_nodes(arms@);
        let ghost items = arms@;
        let mut out: Vec<IrArm> = Vec::new();
        assert(arm_nodes(out@) =~= rename_arms(self@, env@, all.take(0)).to);
        for arm in iter: arms
            invariant
                iter.seq() == items,
                items == arms@,
                all == arm_nodes(items),
                arm_nodes(out@) == rename_arms(
                    old(self)@,
                    old(env)@,
                    all.take(iter.index() as int),
                ).to,
                self@ == rename_arms(old(self)@, old(env)@, all.take(iter.index() as int)).used,
                env.binders@ == old(env).binders@,
        {
            let ghost i = iter.index() as int;
            let ghost out0 = out@;
            let arm = self.arm(arm, env);
            out.push(arm);
            proof {
                assert(all.take(i + 1).drop_last() =~= all.take(i));
                assert(all.take(i + 1).last() == items[i]@);
                assert(arm_nodes(out@) =~= arm_nodes(out0).push(arm@));
            }
        }
        assert(all.take(all.len() as int) =~= all);
        out
    }

    /// Renames the binders of an expression apart.
    pub fn expr(&mut self, e: IrExpr, env: &mut Env) -> (r: IrExpr)
        ensures
            r@ == rename(old(self)@, old(env)@, e@).to,
            final(self)@ == rename(old(self)@, old(env)@, e@).used,
            final(env).binders@ == old(env).binders@,
        decreases e,
    {
        match e {
            IrExpr::Var { name, ty } => {
                let name = env.lookup(&name);
                IrExpr::Var { name, ty }
            },
            IrExpr::Let { name, value_ty, value, next } => {
                let mark: usize = env.binders.len();
                let ghost env0 = env.binders@;
                let value = self.expr(*value, env);
                let name = self.bind(name, env);
                let next = self.expr(*next, env);
                env.binders.truncate(mark);
                assert(env.binders@ =~= env0);
                IrExpr::Let { name, value_ty, value: Box::new(value), next: Box::new(next) }
            },
            IrExpr::Fn { params, ret, throws, effects, captures, body } => {
                let captures = self.captures(captures, env);
                let mark: usize = env.binders.len();
                let ghost env0 = env.binders@;
                let params = self.params(params, env);
                let body = self.expr(*body, env);
                env.binders.truncate(mark);
                assert(env.binders@ =~= env0);
                IrExpr::Fn { params, ret, throws, effects, captures, body: Box::new(body) }
            },
            IrExpr::Match { scrutinee, arms, ty } => {
                let scrutinee = self.expr(*scrutinee, env);
                let arms = self.arms(arms, env);
                IrExpr::Match { scrutinee: Box::new(scrutinee), arms, ty }
            },
            IrExpr::Try { body, arms, ty, err_name } => {
                let body = self.expr(*body, env);
                let arms = self.arms(arms, env);
                IrExpr::Try { body: Box::new(body), arms, ty, err_name }
            },
            IrExpr::Array { elem_ty, elems } => {
                let elems = self.all(elems, env);
                IrExpr::Array { elem_ty, elems }
            },
            IrExpr::Call { callee, args, ret } => {
                let callee = self.expr(*callee, env);
                let args = self.all(args, env);
                IrExpr::Call { callee: Box::new(callee), args, ret }
            },
            IrExpr::Platform { name, args, ret, throws } => {
                let args = self.all(args, env);
                IrExpr::Platform { name, args, ret, throws }
            },
            IrExpr::Intrinsic { name, args, ret } => {
                let args = self.all(args, env);
                IrExpr::Intrinsic { name, args, ret }
            },
            IrExpr::TailSelfCall { args, ty } => {
                let args = self.all(args, env);
                IrExpr::TailSelfCall { args, ty }
            },
            IrExpr::If { cond, then, els, ty } => {
                let cond = self.expr(*cond, env);
                let then = self.expr(*then, env);
                let els = self.expr(*els, env);
                IrExpr::If { cond: Box::new(cond), then: Box::new(then), els: Box::new(els), ty }
            },
            IrExpr::Binary { op, ty, left, right } => {
                let left = self.expr(*left, env);
                let right = self.expr(*right, env);
                IrExpr::Binary { op, ty, left: Box::new(left), right: Box::new(right) }
            },
            IrExpr::Concat { left, right } => {
                let left = self.expr(*left, env);
                let right = self.expr(*right, env);
                IrExpr::Concat { left: Box::new(left), right: Box::new(right) }
            },
            IrExpr::EnumValue { ty, variant, tag, payload } => {
                let payload = self.all(payload, env);
                IrExpr::EnumValue { ty, variant, tag, payload }
            },
            IrExpr::RecordValue { ty, fields } => {
                let fields = self.all(fields, env);
                IrExpr::RecordValue { ty, fields }
            },
            IrExpr::FieldAccess { target, index, field_ty } => {
                let target = self.expr(*target, env);
                IrExpr::FieldAccess { target: Box::new(target), index, field_ty }
            },
            IrExpr::Throw { value } => {
                let value = self.expr(*value, env);
                IrExpr::Throw { value: Box::new(value) }
            },
            IrExpr::Question { value, mode, ty } => {
                let value = self.expr(*value, env);
                IrExpr::Question { value: Box::new(value), mode, ty }
            },
            IrExpr::Panic { message } => {
                let message = self.expr(*message, env);
                IrExpr::Panic { message: Box::new(message) }
            },
            IrExpr::CharFromCode(value) => {
                let value = self.expr(*value, env);
                IrExpr::CharFromCode(Box::new(value))
            },
            IrExpr::StringFromChar(value) => {
                let value = self.expr(*value, env);
                IrExpr::StringFromChar(Box::new(value))
            },
            IrExpr::Retain { value } => {
                let value = self.expr(*value, env);
                IrExpr::Retain { value: Box::new(value) }
            },
            IrExpr::Release { name, ty, next } => {
                let next = self.expr(*next, env);
                IrExpr::Release { name, ty, next: Box::new(next) }
            },
            other => other,
        }
    }
}

} // verus!
