//! The variables that a lambda captures.

use vstd::prelude::*;

use crate::ast::{Block, BlockItem, Expr, FieldBinding, FieldInit, MatchArm, Param, Pattern};
use crate::ir::{capture_binds, Bind, IrCapture};
use crate::strings::{contains_name, copy_names, texts};
use crate::subst::{lookup, Bindings};

verus! {

/// One more free name, unless it is bound or already there.
pub open spec fn with_free(out: Seq<Seq<char>>, bound: Seq<Seq<char>>, name: Seq<char>) -> Seq<
    Seq<char>,
> {
    if bound.contains(name) || out.contains(name) {
        out
    } else {
        out.push(name)
    }
}

/// The names that a list of parameters binds.
pub open spec fn param_names(s: Seq<Param>) -> Seq<Seq<char>> {
    s.map_values(|p: Param| p.name@)
}

/// The names that the first fields of a pattern bind, after `bound`.
pub open spec fn field_names(bound: Seq<Seq<char>>, s: Seq<FieldBinding>) -> Seq<Seq<char>>
    decreases s.len(),
{
    if s.len() == 0 {
        bound
    } else {
        match s.last() {
            FieldBinding::Name(name) => field_names(bound, s.drop_last()).push(name@),
            FieldBinding::Ignore => field_names(bound, s.drop_last()),
        }
    }
}

/// The names that a pattern binds, after `bound`.
pub open spec fn pattern_names(bound: Seq<Seq<char>>, p: Pattern) -> Seq<Seq<char>> {
    match p {
        Pattern::Wildcard(_) => bound,
        Pattern::Binding { name, .. } => bound.push(name@),
        Pattern::Variant { fields, .. } => field_names(bound, fields@),
    }
}

/// The names that are bound after some block items.
pub open spec fn bound_after(bound: Seq<Seq<char>>, s: Seq<BlockItem>) -> Seq<Seq<char>>
    decreases s.len(),
{
    if s.len() == 0 {
        bound
    } else {
        match s.last() {
            BlockItem::Let { name, .. } => bound_after(bound, s.drop_last()).push(name@),
            BlockItem::Expr(_) => bound_after(bound, s.drop_last()),
        }
    }
}

/// The names that are free in an expression, in order of first occurrence, after
/// `out`.
pub open spec fn free_expr(out: Seq<Seq<char>>, bound: Seq<Seq<char>>, e: Expr) -> Seq<Seq<char>>
    decreases e, 1nat,
{
    match e {
        Expr::Var(name, _) => with_free(out, bound, name@),
        Expr::Array(elements, _) => free_list(out, bound, elements@),
        Expr::Call { callee, args, .. } => free_list(
            free_expr(out, bound, *callee),
            bound,
            args@,
        ),
        Expr::Binary { left, right, .. } => free_expr(
            free_expr(out, bound, *left),
            bound,
            *right,
        ),
        Expr::Fn { params, body, .. } => free_block(out, bound + param_names(params@), body),
        Expr::Block(block) => free_block(out, bound, block),
        Expr::If { cond, then, els, .. } => free_block(
            free_block(free_expr(out, bound, *cond), bound, then),
            bound,
            els,
        ),
        Expr::Throw { value, .. } => free_expr(out, bound, *value),
        Expr::Question { value, .. } => free_expr(out, bound, *value),
        Expr::Panic { message, .. } => free_expr(out, bound, *message),
        // A path's head may be a local value; the later segments never are.
        Expr::Path { segments, .. } => if segments@.len() > 0 {
            with_free(out, bound, segments@[0]@)
        } else {
            out
        },
        Expr::RecordLiteral { fields, .. } => free_fields(out, bound, fields@),
        Expr::Field { target, .. } => free_expr(out, bound, *target),
        Expr::Match { scrutinee, arms, .. } => free_arms(
            free_expr(out, bound, *scrutinee),
            bound,
            arms@,
        ),
        Expr::Try { body, arms, .. } => free_arms(free_block(out, bound, body), bound, arms@),
        _ => out,
    }
}

/// The names that are free in some expressions.
pub open spec fn free_list(out: Seq<Seq<char>>, bound: Seq<Seq<char>>, s: Seq<Expr>) -> Seq<
    Seq<char>,
>
    decreases s, 0nat,
{
    if s.len() == 0 {
        out
    } else {
        free_expr(free_list(out, bound, s.drop_last()), bound, s.last())
    }
}

/// The names that are free in the fields of a record literal.
pub open spec fn free_fields(out: Seq<Seq<char>>, bound: Seq<Seq<char>>, s: Seq<FieldInit>) -> Seq<
    Seq<char>,
>
    decreases s, 0nat,
{
    if s.len() == 0 {
        out
    } else {
        free_expr(free_fields(out, bound, s.drop_last()), bound, s.last().value)
    }
}

/// The names that are free in an arm.
pub open spec fn free_arm(out: Seq<Seq<char>>, bound: Seq<Seq<char>>, arm: MatchArm) -> Seq<
    Seq<char>,
>
    decreases arm, 0nat,
{
    let inner = pattern_names(bound, arm.pattern);
    free_expr(
        match arm.guard {
            Some(guard) => free_expr(out, inner, guard),
            None => out,
        },
        inner,
        arm.body,
    )
}

/// The names that are free in some arms.
pub open spec fn free_arms(out: Seq<Seq<char>>, bound: Seq<Seq<char>>, s: Seq<MatchArm>) -> Seq<
    Seq<char>,
>
    decreases s, 0nat,
{
    if s.len() == 0 {
        out
    } else {
        free_arm(free_arms(out, bound, s.drop_last()), bound, s.last())
    }
}

/// The names that are free in a block.
pub open spec fn free_block(out: Seq<Seq<char>>, bound: Seq<Seq<char>>, block: Block) -> Seq<
    Seq<char>,
>
    decreases block, 0nat,
{
    free_items(out, bound, block.items@)
}

/// The names that are free in some block items.
pub open spec fn free_items(out: Seq<Seq<char>>, bound: Seq<Seq<char>>, s: Seq<BlockItem>) -> Seq<
    Seq<char>,
>
    decreases s, 0nat,
{
    if s.len() == 0 {
        out
    } else {
        free_item(
            free_items(out, bound, s.drop_last()),
            bound_after(bound, s.drop_last()),
            s.last(),
        )
    }
}

/// The names that are free in a block item.
pub open spec fn free_item(out: Seq<Seq<char>>, bound: Seq<Seq<char>>, item: BlockItem) -> Seq<
    Seq<char>,
>
    decreases item, 0nat,
{
    match item {
        BlockItem::Let { value, .. } => free_expr(out, bound, value),
        BlockItem::Expr(e) => free_expr(out, bound, e),
    }
}

fn add_free(out: &mut Vec<String>, bound: &Vec<String>, name: &String)
    ensures
        texts(final(out)@) == with_free(texts(old(out)@), texts(bound@), name@),
{
    if !contains_name(bound, name.as_str()) && !contains_name(out, name.as_str()) {
        out.push(name.clone());
        assert(texts(out@) =~= texts(old(out)@).push(name@));
    }
}

fn add_name(bound: &mut Vec<String>, name: &String)
    ensures
        texts(final(bound)@) == texts(old(bound)@).push(name@),
{
    bound.push(name.clone());
    assert(texts(bound@) =~= texts(old(bound)@).push(name@));
}

fn with_params(bound: &Vec<String>, params: &Vec<Param>) -> (r: Vec<String>)
    ensures
        texts(r@) == texts(bound@) + param_names(params@),
{
    let ghost names = param_names(params@);
    let mut out = copy_names(bound);
    let mut i: usize = 0;
    assert(texts(out@) =~= texts(bound@) + names.take(0));
    while i < params.len()
        invariant
            i <= params.len(),
            names == param_names(params@),
            texts(out@) == texts(bound@) + names.take(i as int),
        decreases params.len() - i,
    {
        add_name(&mut out, &params[i].name);
        assert(texts(out@) =~= texts(bound@) + names.take(i + 1));
        i += 1;
    }
    assert(names.take(names.len() as int) =~= names);
    out
}

fn with_pattern(bound: &Vec<String>, p: &Pattern) -> (r: Vec<String>)
    ensures
        texts(r@) == pattern_names(texts(bound@), *p),
{
    let mut out = copy_names(bound);
    match p {
        Pattern::Wildcard(_) => {},
        Pattern::Binding { name, .. } => add_name(&mut out, name),
        Pattern::Variant { fields, .. } => {
            let mut i: usize = 0;
            assert(fields@.take(0).len() == 0);
            while i < fields.len()
                invariant
                    i <= fields.len(),
                    texts(out@) == field_names(texts(bound@), fields@.take(i as int)),
                decreases fields.len() - i,
            {
                proof {
                    assert(fields@.take(i + 1).drop_last() =~= fields@.take(i as int));
                    assert(fields@.take(i + 1).last() == fields@[i as int]);
                }
                if let FieldBinding::Name(name) = &fields[i] {
                    add_name(&mut out, name);
                }
                i += 1;
            }
            assert(fields@.take(fields@.len() as int) =~= fields@);
        },
    }
    out
}

fn in_list(out: &mut Vec<String>, bound: &Vec<String>, s: &Vec<Expr>)
    ensures
        texts(final(out)@) == free_list(texts(old(out)@), texts(bound@), s@),
    decreases s@, 0nat,
{
    let mut i: usize = 0;
    assert(s@.take(0).len() == 0);
    while i < s.len()
        invariant
            i <= s.len(),
            texts(out@) == free_list(texts(old(out)@), texts(bound@), s@.take(i as int)),
        decreases s.len() - i,
    {
        in_expr(out, bound, &s[i]);
        proof {
            assert(s@.take(i + 1).drop_last() =~= s@.take(i as int));
            assert(s@.take(i + 1).last() == s@[i as int]);
        }
        i += 1;
    }
    assert(s@.take(s@.len() as int) =~= s@);
}

fn in_fields(out: &mut Vec<String>, bound: &Vec<String>, s: &Vec<FieldInit>)
    ensures
        texts(final(out)@) == free_fields(texts(old(out)@), texts(bound@), s@),
    decreases s@, 0nat,
{
    let mut i: usize = 0;
    assert(s@.take(0).len() == 0);
    while i < s.len()
        invariant
            i <= s.len(),
            texts(out@) == free_fields(texts(old(out)@), texts(bound@), s@.take(i as int)),
        decreases s.len() - i,
    {
        in_expr(out, bound, &s[i].value);
        proof {
            assert(s@.take(i + 1).drop_last() =~= s@.take(i as int));
            assert(s@.take(i + 1).last() == s@[i as int]);
        }
        i += 1;
    }
    assert(s@.take(s@.len() as int) =~= s@);
}

fn in_arm(out: &mut Vec<String>, bound: &Vec<String>, arm: &MatchArm)
    ensures
        texts(final(out)@) == free_arm(texts(old(out)@), texts(bound@), *arm),
    decreases arm, 0nat,
{
    let inner = with_pattern(bound, &arm.pattern);
    if let Some(guard) = &arm.guard {
        in_expr(out, &inner, guard);
    }
    in_expr(out, &inner, &arm.body);
}

fn in_arms(out: &mut Vec<String>, bound: &Vec<String>, s: &Vec<MatchArm>)
    ensures
        texts(final(out)@) == free_arms(texts(old(out)@), texts(bound@), s@),
    decreases s@, 0nat,
{
    let mut i: usize = 0;
    assert(s@.take(0).len() == 0);
    while i < s.len()
        invariant
            i <= s.len(),
            texts(out@) == free_arms(texts(old(out)@), texts(bound@), s@.take(i as int)),
        decreases s.len() - i,
    {
        in_arm(out, bound, &s[i]);
        proof {
            assert(s@.take(i + 1).drop_last() =~= s@.take(i as int));
            assert(s@.take(i + 1).last() == s@[i as int]);
        }
        i += 1;
    }
    assert(s@.take(s@.len() as int) =~= s@);
}

fn in_item(out: &mut Vec<String>, bound: &Vec<String>, item: &BlockItem)
    ensures
        texts(final(out)@) == free_item(texts(old(out)@), texts(bound@), *item),
    decreases item, 0nat,
{
    match item {
        BlockItem::Let { value, .. } => in_expr(out, bound, value),
        BlockItem::Expr(e) => in_expr(out, bound, e),
    }
}

fn in_block(out: &mut Vec<String>, bound: &Vec<String>, block: &Block)
    ensures
        texts(final(out)@) == free_block(texts(old(out)@), texts(bound@), *block),
    decreases block, 0nat,
{
    let s = &block.items;
    let mut inner = copy_names(bound);
    let mut i: usize = 0;
    assert(s@.take(0).len() == 0);
    while i < s.len()
        invariant
            i <= s.len(),
            *s == block.items,
            texts(inner@) == bound_after(texts(bound@), s@.take(i as int)),
            texts(out@) == free_items(texts(old(out)@), texts(bound@), s@.take(i as int)),
        decreases s.len() - i,
    {
        in_item(out, &inner, &s[i]);
        proof {
            assert(s@.take(i + 1).drop_last() =~= s@.take(i as int));
            assert(s@.take(i + 1).last() == s@[i as int]);
        }
        if let BlockItem::Let { name, .. } = &s[i] {
            add_name(&mut inner, name);
        }
        i += 1;
    }
    assert(s@.take(s@.len() as int) =~= s@);
}

fn in_expr(out: &mut Vec<String>, bound: &Vec<String>, e: &Expr)
    ensures
        texts(final(out)@) == free_expr(texts(old(out)@), texts(bound@), *e),
    decreases e, 1nat,
{
    match e {
        Expr::Var(name, _) => add_free(out, bound, name),
        Expr::Array(elements, _) => in_list(out, bound, elements),
        Expr::Call { callee, args, .. } => {
            in_expr(out, bound, callee);
            in_list(out, bound, args);
        },
        Expr::Binary { left, right, .. } => {
            in_expr(out, bound, left);
            in_expr(out, bound, right);
        },
        Expr::Fn { params, body, .. } => {
            let inner = with_params(bound, params);
            in_block(out, &inner, body);
        },
        Expr::Block(block) => in_block(out, bound, block),
        Expr::If { cond, then, els, .. } => {
            in_expr(out, bound, cond);
            in_block(out, bound, then);
            in_block(out, bound, els);
        },
        Expr::Throw { value, .. } => in_expr(out, bound, value),
        Expr::Question { value, .. } => in_expr(out, bound, value),
        Expr::Panic { message, .. } => in_expr(out, bound, message),
        Expr::Path { segments, .. } => {
            if segments.len() > 0 {
                add_free(out, bound, &segments[0]);
            }
        },
        Expr::RecordLiteral { fields, .. } => in_fields(out, bound, fields),
        Expr::Field { target, .. } => in_expr(out, bound, target),
        Expr::Match { scrutinee, arms, .. } => {
            in_expr(out, bound, scrutinee);
            in_arms(out, bound, arms);
        },
        Expr::Try { body, arms, .. } => {
            in_block(out, bound, body);
            in_arms(out, bound, arms);
        },
        _ => {},
    }
}

/// The names that are in scope, with their types.
pub open spec fn in_scope(names: Seq<Seq<char>>, scope: Seq<Bind>) -> Seq<Bind>
    decreases names.len(),
{
    if names.len() == 0 {
        Seq::empty()
    } else {
        let before = in_scope(names.drop_last(), scope);
        match lookup(scope, names.last()) {
            Some(ty) => before.push(Bind { name: names.last(), ty }),
            None => before,
        }
    }
}

/// The variables that a lambda captures from its enclosing scope, in order of
/// first occurrence. Top-level functions are not in scope, so they are never
/// captured.
pub open spec fn captures(params: Seq<Param>, body: Block, scope: Seq<Bind>) -> Seq<Bind> {
    in_scope(free_block(Seq::empty(), param_names(params), body), scope)
}

/// The variables that a lambda captures from its enclosing scope.
pub fn lambda_captures(params: &Vec<Param>, body: &Block, scope: &Bindings) -> (r: Vec<IrCapture>)
    ensures
        capture_binds(r@) == captures(params@, *body, scope@),
{
    let none: Vec<String> = Vec::new();
    let bound = with_params(&none, params);
    let mut free: Vec<String> = Vec::new();
    proof {
        assert(texts(none@) =~= Seq::<Seq<char>>::empty());
        assert(texts(bound@) =~= param_names(params@));
        assert(texts(free@) =~= Seq::<Seq<char>>::empty());
    }
    in_block(&mut free, &bound, body);
    let ghost names = texts(free@);
    let mut out: Vec<IrCapture> = Vec::new();
    let mut i: usize = 0;
    proof {
        assert(names.take(0).len() == 0);
        assert(capture_binds(out@) =~= in_scope(names.take(0), scope@));
    }
    while i < free.len()
        invariant
            i <= free.len(),
            names == texts(free@),
            capture_binds(out@) == in_scope(names.take(i as int), scope@),
        decreases free.len() - i,
    {
        proof {
            assert(names.take(i + 1).drop_last() =~= names.take(i as int));
            assert(names.take(i + 1).last() == free@[i as int]@);
        }
        if let Some(ty) = scope.get(free[i].as_str()) {
            let ghost before = capture_binds(out@);
            let capture = IrCapture { name: free[i].clone(), ty: ty.copy() };
            out.push(capture);
            assert(capture_binds(out@) =~= before.push(capture@));
        }
        i += 1;
    }
    assert(names.take(names.len() as int) =~= names);
    out
}

/// Whether `b` holds all names of `a`.
spec fn covers(b: Seq<Seq<char>>, a: Seq<Seq<char>>) -> bool {
    forall|x: Seq<char>| #[trigger] a.contains(x) ==> b.contains(x)
}

/// Whether collecting free names has added only names that are not in `outer`,
/// each once.
spec fn adds_free(out: Seq<Seq<char>>, outer: Seq<Seq<char>>, r: Seq<Seq<char>>) -> bool {
    &&& out.no_duplicates() ==> r.no_duplicates()
    &&& forall|x: Seq<char>| #[trigger] r.contains(x) ==> out.contains(x) || !outer.contains(x)
}

proof fn lemma_pushed(s: Seq<Seq<char>>, name: Seq<char>)
    ensures
        covers(s.push(name), s),
        forall|x: Seq<char>| #[trigger] s.push(name).contains(x) ==> s.contains(x) || x == name,
{
    let t = s.push(name);
    assert forall|x: Seq<char>| #[trigger] s.contains(x) implies t.contains(x) by {
        let k = choose|k: int| 0 <= k < s.len() && s[k] == x;
        assert(t[k] == x);
    }
}

proof fn lemma_with_free(out: Seq<Seq<char>>, bound: Seq<Seq<char>>, outer: Seq<Seq<char>>, name: Seq<char>)
    requires
        covers(bound, outer),
    ensures
        adds_free(out, outer, with_free(out, bound, name)),
{
    lemma_pushed(out, name);
}

proof fn lemma_fields_cover(bound: Seq<Seq<char>>, s: Seq<FieldBinding>)
    ensures
        covers(field_names(bound, s), bound),
    decreases s.len(),
{
    if s.len() > 0 {
        lemma_fields_cover(bound, s.drop_last());
        if let FieldBinding::Name(name) = s.last() {
            lemma_pushed(field_names(bound, s.drop_last()), name@);
        }
    }
}

proof fn lemma_pattern_covers(bound: Seq<Seq<char>>, p: Pattern)
    ensures
        covers(pattern_names(bound, p), bound),
{
    match p {
        Pattern::Binding { name, .. } => lemma_pushed(bound, name@),
        Pattern::Variant { fields, .. } => lemma_fields_cover(bound, fields@),
        _ => {},
    }
}

proof fn lemma_items_cover(bound: Seq<Seq<char>>, s: Seq<BlockItem>)
    ensures
        covers(bound_after(bound, s), bound),
    decreases s.len(),
{
    if s.len() > 0 {
        lemma_items_cover(bound, s.drop_last());
        if let BlockItem::Let { name, .. } = s.last() {
            lemma_pushed(bound_after(bound, s.drop_last()), name@);
        }
    }
}

proof fn lemma_params_cover(bound: Seq<Seq<char>>, names: Seq<Seq<char>>)
    ensures
        covers(bound + names, bound),
{
    assert forall|x: Seq<char>| #[trigger] bound.contains(x) implies (bound + names).contains(
        x,
    ) by {
        let k = choose|k: int| 0 <= k < bound.len() && bound[k] == x;
        assert((bound + names)[k] == x);
    }
}

proof fn lemma_free_expr(out: Seq<Seq<char>>, bound: Seq<Seq<char>>, outer: Seq<Seq<char>>, e: Expr)
    requires
        covers(bound, outer),
    ensures
        adds_free(out, outer, free_expr(out, bound, e)),
    decreases e, 1nat,
{
    match e {
        Expr::Var(name, _) => lemma_with_free(out, bound, outer, name@),
        Expr::Array(elements, _) => lemma_free_list(out, bound, outer, elements@),
        Expr::Call { callee, args, .. } => {
            lemma_free_expr(out, bound, outer, *callee);
            lemma_free_list(free_expr(out, bound, *callee), bound, outer, args@);
        },
        Expr::Binary { left, right, .. } => {
            lemma_free_expr(out, bound, outer, *left);
            lemma_free_expr(free_expr(out, bound, *left), bound, outer, *right);
        },
        Expr::Fn { params, body, .. } => {
            lemma_params_cover(bound, param_names(params@));
            lemma_free_block(out, bound + param_names(params@), outer, body);
        },
        Expr::Block(block) => lemma_free_block(out, bound, outer, block),
        Expr::If { cond, then, els, .. } => {
            lemma_free_expr(out, bound, outer, *cond);
            let a = free_expr(out, bound, *cond);
            lemma_free_block(a, bound, outer, then);
            lemma_free_block(free_block(a, bound, then), bound, outer, els);
        },
        Expr::Throw { value, .. } => lemma_free_expr(out, bound, outer, *value),
        Expr::Question { value, .. } => lemma_free_expr(out, bound, outer, *value),
        Expr::Panic { message, .. } => lemma_free_expr(out, bound, outer, *message),
        Expr::Path { segments, .. } => if segments@.len() > 0 {
            lemma_with_free(out, bound, outer, segments@[0]@)
        },
        Expr::RecordLiteral { fields, .. } => lemma_free_fields(out, bound, outer, fields@),
        Expr::Field { target, .. } => lemma_free_expr(out, bound, outer, *target),
        Expr::Match { scrutinee, arms, .. } => {
            lemma_free_expr(out, bound, outer, *scrutinee);
            lemma_free_arms(free_expr(out, bound, *scrutinee), bound, outer, arms@);
        },
        Expr::Try { body, arms, .. } => {
            lemma_free_block(out, bound, outer, body);
            lemma_free_arms(free_block(out, bound, body), bound, outer, arms@);
        },
        _ => {},
    }
}

proof fn lemma_free_list(out: Seq<Seq<char>>, bound: Seq<Seq<char>>, outer: Seq<Seq<char>>, s: Seq<Expr>)
    requires
        covers(bound, outer),
    ensures
        adds_free(out, outer, free_list(out, bound, s)),
    decreases s, 0nat,
{
    if s.len() > 0 {
        lemma_free_list(out, bound, outer, s.drop_last());
        lemma_free_expr(free_list(out, bound, s.drop_last()), bound, outer, s.last());
    }
}

proof fn lemma_free_fields(out: Seq<Seq<char>>, bound: Seq<Seq<char>>, outer: Seq<Seq<char>>, s: Seq<FieldInit>)
    requires
        covers(bound, outer),
    ensures
        adds_free(out, outer, free_fields(out, bound, s)),
    decreases s, 0nat,
{
    if s.len() > 0 {
        lemma_free_fields(out, bound, outer, s.drop_last());
        lemma_free_expr(free_fields(out, bound, s.drop_last()), bound, outer, s.last().value);
    }
}

proof fn lemma_free_arm(out: Seq<Seq<char>>, bound: Seq<Seq<char>>, outer: Seq<Seq<char>>, arm: MatchArm)
    requires
        covers(bound, outer),
    ensures
        adds_free(out, outer, free_arm(out, bound, arm)),
    decreases arm, 0nat,
{
    lemma_pattern_covers(bound, arm.pattern);
    let inner = pattern_names(bound, arm.pattern);
    match arm.guard {
        Some(guard) => {
            lemma_free_expr(out, inner, outer, guard);
            lemma_free_expr(free_expr(out, inner, guard), inner, outer, arm.body);
        },
        None => lemma_free_expr(out, inner, outer, arm.body),
    }
}

proof fn lemma_free_arms(out: Seq<Seq<char>>, bound: Seq<Seq<char>>, outer: Seq<Seq<char>>, s: Seq<MatchArm>)
    requires
        covers(bound, outer),
    ensures
        adds_free(out, outer, free_arms(out, bound, s)),
    decreases s, 0nat,
{
    if s.len() > 0 {
        lemma_free_arms(out, bound, outer, s.drop_last());
        lemma_free_arm(free_arms(out, bound, s.drop_last()), bound, outer, s.last());
    }
}

proof fn lemma_free_block(out: Seq<Seq<char>>, bound: Seq<Seq<char>>, outer: Seq<Seq<char>>, block: Block)
    requires
        covers(bound, outer),
    ensures
        adds_free(out, outer, free_block(out, bound, block)),
    decreases block, 0nat,
{
    lemma_free_items(out, bound, outer, block.items@);
}

proof fn lemma_free_items(out: Seq<Seq<char>>, bound: Seq<Seq<char>>, outer: Seq<Seq<char>>, s: Seq<BlockItem>)
    requires
        covers(bound, outer),
    ensures
        adds_free(out, outer, free_items(out, bound, s)),
    decreases s, 0nat,
{
    if s.len() > 0 {
        lemma_free_items(out, bound, outer, s.drop_last());
        lemma_items_cover(bound, s.drop_last());
        lemma_free_item(
            free_items(out, bound, s.drop_last()),
            bound_after(bound, s.drop_last()),
            outer,
            s.last(),
        );
    }
}

proof fn lemma_free_item(out: Seq<Seq<char>>, bound: Seq<Seq<char>>, outer: Seq<Seq<char>>, item: BlockItem)
    requires
        covers(bound, outer),
    ensures
        adds_free(out, outer, free_item(out, bound, item)),
    decreases item, 0nat,
{
    match item {
        BlockItem::Let { value, .. } => lemma_free_expr(out, bound, outer, value),
        BlockItem::Expr(e) => lemma_free_expr(out, bound, outer, e),
    }
}

proof fn lemma_in_scope(names: Seq<Seq<char>>, scope: Seq<Bind>)
    requires
        names.no_duplicates(),
    ensures
        forall|i: int|
            0 <= i < in_scope(names, scope).len() ==> {
                let c = #[trigger] in_scope(names, scope)[i];
                names.contains(c.name) && lookup(scope, c.name) == Some(c.ty)
            },
        forall|i: int, j: int|
            0 <= i < j < in_scope(names, scope).len() ==> (#[trigger] in_scope(
                names,
                scope,
            )[i]).name != (#[trigger] in_scope(names, scope)[j]).name,
    decreases names.len(),
{
    if names.len() > 0 {
        let front = names.drop_last();
        lemma_in_scope(front, scope);
        let before = in_scope(front, scope);
        let all = in_scope(names, scope);
        assert(!front.contains(names.last())) by {
            if front.contains(names.last()) {
                let k = choose|k: int| 0 <= k < front.len() && front[k] == names.last();
                assert(names[k] == names[names.len() - 1]);
            }
        }
        assert forall|i: int| 0 <= i < all.len() implies ({
            let c = #[trigger] all[i];
            names.contains(c.name) && lookup(scope, c.name) == Some(c.ty)
        }) by {
            if i < before.len() {
                assert(all[i] == before[i]);
                let k = choose|k: int| 0 <= k < front.len() && front[k] == before[i].name;
                assert(names[k] == before[i].name);
            } else {
                assert(names[names.len() - 1] == names.last());
            }
        }
        assert forall|i: int, j: int| 0 <= i < j < all.len() implies (#[trigger] all[i]).name != (
        #[trigger] all[j]).name by {
            assert(all[i] == before[i]);
            assert(front.contains(before[i].name));
            if j < before.len() {
                assert(all[j] == before[j]);
            }
        }
    }
}

/// A lambda captures variables of the enclosing scope, with the types that they
/// have there, each once, and none that its own parameters bind.
pub proof fn captures_are_enclosing_variables(params: Seq<Param>, body: Block, scope: Seq<Bind>)
    ensures
        forall|i: int|
            0 <= i < captures(params, body, scope).len() ==> {
                let c = #[trigger] captures(params, body, scope)[i];
                lookup(scope, c.name) == Some(c.ty) && !param_names(params).contains(c.name)
            },
        forall|i: int, j: int|
            0 <= i < j < captures(params, body, scope).len() ==> (#[trigger] captures(
                params,
                body,
                scope,
            )[i]).name != (#[trigger] captures(params, body, scope)[j]).name,
{
    let none: Seq<Seq<char>> = Seq::empty();
    let names = param_names(params);
    lemma_free_block(none, names, names, body);
    lemma_in_scope(free_block(none, names, body), scope);
    let all = captures(params, body, scope);
    assert forall|i: int| 0 <= i < all.len() implies ({
        let c = #[trigger] all[i];
        lookup(scope, c.name) == Some(c.ty) && !names.contains(c.name)
    }) by {
        assert(free_block(none, names, body).contains(all[i].name));
        assert(!none.contains(all[i].name));
    }
}

} // verus!
