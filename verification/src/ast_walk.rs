//! Walks over the syntax tree: every block item and every expression, in
//! source order, each before what it contains.

use vstd::prelude::*;

use crate::ast::{
    Block, BlockItem, Expr, FieldInit, Function, ImplDecl, MatchArm, Program, TraitDecl,
    TraitMethodSig,
};

verus! {

/// What a walk comes by.
pub enum Step {
    Item(BlockItem),
    Expr(Expr),
}

/// What a walk comes by, by reference.
pub enum Visit<'a> {
    Item(&'a BlockItem),
    Expr(&'a Expr),
}

impl<'a> Visit<'a> {
    pub open spec fn view(&self) -> Step {
        match self {
            Visit::Item(item) => Step::Item(**item),
            Visit::Expr(e) => Step::Expr(**e),
        }
    }
}

/// What a list of visits says.
pub open spec fn steps(s: Seq<Visit<'_>>) -> Seq<Step> {
    s.map_values(|v: Visit<'_>| v@)
}

/// The steps of an expression, after `out`.
pub open spec fn expr_steps(out: Seq<Step>, e: Expr) -> Seq<Step>
    decreases e, 1nat,
{
    let here = out.push(Step::Expr(e));
    match e {
        Expr::Array(items, _) => list_steps(here, items@),
        Expr::Call { callee, args, .. } => list_steps(expr_steps(here, *callee), args@),
        Expr::Fn { body, .. } => block_steps(here, body),
        Expr::Binary { left, right, .. } => expr_steps(expr_steps(here, *left), *right),
        Expr::Block(block) => block_steps(here, block),
        Expr::If { cond, then, els, .. } => block_steps(
            block_steps(expr_steps(here, *cond), then),
            els,
        ),
        Expr::Throw { value, .. } => expr_steps(here, *value),
        Expr::Panic { message, .. } => expr_steps(here, *message),
        Expr::Question { value, .. } => expr_steps(here, *value),
        Expr::Match { scrutinee, arms, .. } => arms_steps(expr_steps(here, *scrutinee), arms@),
        Expr::Try { body, arms, .. } => arms_steps(block_steps(here, body), arms@),
        Expr::RecordLiteral { fields, .. } => fields_steps(here, fields@),
        Expr::Field { target, .. } => expr_steps(here, *target),
        _ => here,
    }
}

/// The steps of a list of expressions, after `out`.
pub open spec fn list_steps(out: Seq<Step>, s: Seq<Expr>) -> Seq<Step>
    decreases s, 0nat,
{
    if s.len() == 0 {
        out
    } else {
        expr_steps(list_steps(out, s.drop_last()), s.last())
    }
}

/// The steps of a list of field values, after `out`.
pub open spec fn fields_steps(out: Seq<Step>, s: Seq<FieldInit>) -> Seq<Step>
    decreases s, 0nat,
{
    if s.len() == 0 {
        out
    } else {
        expr_steps(fields_steps(out, s.drop_last()), s.last().value)
    }
}

/// The steps of a list of arms, after `out`: each guard before its body.
pub open spec fn arms_steps(out: Seq<Step>, s: Seq<MatchArm>) -> Seq<Step>
    decreases s, 0nat,
{
    if s.len() == 0 {
        out
    } else {
        arm_steps(arms_steps(out, s.drop_last()), s.last())
    }
}

/// The steps of an arm, after `out`.
pub open spec fn arm_steps(out: Seq<Step>, arm: MatchArm) -> Seq<Step>
    decreases arm, 0nat,
{
    let guarded = match arm.guard {
        Some(guard) => expr_steps(out, guard),
        None => out,
    };
    expr_steps(guarded, arm.body)
}

/// The steps of a block, after `out`.
pub open spec fn block_steps(out: Seq<Step>, block: Block) -> Seq<Step>
    decreases block, 0nat,
{
    items_steps(out, block.items@)
}

/// The steps of a list of block items, after `out`.
pub open spec fn items_steps(out: Seq<Step>, s: Seq<BlockItem>) -> Seq<Step>
    decreases s, 0nat,
{
    if s.len() == 0 {
        out
    } else {
        item_steps(items_steps(out, s.drop_last()), s.last())
    }
}

/// The steps of a block item, after `out`.
pub open spec fn item_steps(out: Seq<Step>, item: BlockItem) -> Seq<Step>
    decreases item, 0nat,
{
    let here = out.push(Step::Item(item));
    match item {
        BlockItem::Let { value, .. } => expr_steps(here, value),
        BlockItem::Expr(e) => expr_steps(here, e),
    }
}

fn visit_list<'a>(s: &'a Vec<Expr>, out: &mut Vec<Visit<'a>>)
    ensures
        steps(final(out)@) == list_steps(steps(old(out)@), s@),
    decreases s@, 0nat,
{
    let mut i: usize = 0;
    assert(s@.take(0).len() == 0);
    while i < s.len()
        invariant
            i <= s.len(),
            steps(out@) == list_steps(steps(old(out)@), s@.take(i as int)),
        decreases s.len() - i,
    {
        visit_expr(&s[i], out);
        proof {
            assert(s@.take(i + 1).drop_last() =~= s@.take(i as int));
            assert(s@.take(i + 1).last() == s@[i as int]);
        }
        i += 1;
    }
    assert(s@.take(s@.len() as int) =~= s@);
}

fn visit_fields<'a>(s: &'a Vec<FieldInit>, out: &mut Vec<Visit<'a>>)
    ensures
        steps(final(out)@) == fields_steps(steps(old(out)@), s@),
    decreases s@, 0nat,
{
    let mut i: usize = 0;
    assert(s@.take(0).len() == 0);
    while i < s.len()
        invariant
            i <= s.len(),
            steps(out@) == fields_steps(steps(old(out)@), s@.take(i as int)),
        decreases s.len() - i,
    {
        visit_expr(&s[i].value, out);
        proof {
            assert(s@.take(i + 1).drop_last() =~= s@.take(i as int));
            assert(s@.take(i + 1).last() == s@[i as int]);
        }
        i += 1;
    }
    assert(s@.take(s@.len() as int) =~= s@);
}

fn visit_arm<'a>(arm: &'a MatchArm, out: &mut Vec<Visit<'a>>)
    ensures
        steps(final(out)@) == arm_steps(steps(old(out)@), *arm),
    decreases arm, 0nat,
{
    if let Some(guard) = &arm.guard {
        visit_expr(guard, out);
    }
    visit_expr(&arm.body, out);
}

fn visit_arms<'a>(s: &'a Vec<MatchArm>, out: &mut Vec<Visit<'a>>)
    ensures
        steps(final(out)@) == arms_steps(steps(old(out)@), s@),
    decreases s@, 0nat,
{
    let mut i: usize = 0;
    assert(s@.take(0).len() == 0);
    while i < s.len()
        invariant
            i <= s.len(),
            steps(out@) == arms_steps(steps(old(out)@), s@.take(i as int)),
        decreases s.len() - i,
    {
        visit_arm(&s[i], out);
        proof {
            assert(s@.take(i + 1).drop_last() =~= s@.take(i as int));
            assert(s@.take(i + 1).last() == s@[i as int]);
        }
        i += 1;
    }
    assert(s@.take(s@.len() as int) =~= s@);
}

fn visit_item<'a>(item: &'a BlockItem, out: &mut Vec<Visit<'a>>)
    ensures
        steps(final(out)@) == item_steps(steps(old(out)@), *item),
    decreases item, 0nat,
{
    out.push(Visit::Item(item));
    assert(steps(out@) =~= steps(old(out)@).push(Step::Item(*item)));
    match item {
        BlockItem::Let { value, .. } => visit_expr(value, out),
        BlockItem::Expr(e) => visit_expr(e, out),
    }
}

/// Adds everything in a block to the visits.
pub fn visit_block<'a>(block: &'a Block, out: &mut Vec<Visit<'a>>)
    ensures
        steps(final(out)@) == block_steps(steps(old(out)@), *block),
    decreases block, 0nat,
{
    let s = &block.items;
    let mut i: usize = 0;
    assert(s@.take(0).len() == 0);
    while i < s.len()
        invariant
            i <= s.len(),
            *s == block.items,
            steps(out@) == items_steps(steps(old(out)@), s@.take(i as int)),
        decreases s.len() - i,
    {
        visit_item(&s[i], out);
        proof {
            assert(s@.take(i + 1).drop_last() =~= s@.take(i as int));
            assert(s@.take(i + 1).last() == s@[i as int]);
        }
        i += 1;
    }
    assert(s@.take(s@.len() as int) =~= s@);
}

/// Adds an expression and everything in it to the visits.
pub fn visit_expr<'a>(e: &'a Expr, out: &mut Vec<Visit<'a>>)
    ensures
        steps(final(out)@) == expr_steps(steps(old(out)@), *e),
    decreases e, 1nat,
{
    out.push(Visit::Expr(e));
    assert(steps(out@) =~= steps(old(out)@).push(Step::Expr(*e)));
    match e {
        Expr::Array(items, _) => visit_list(items, out),
        Expr::Call { callee, args, .. } => {
            visit_expr(callee, out);
            visit_list(args, out);
        },
        Expr::Fn { body, .. } => visit_block(body, out),
        Expr::Binary { left, right, .. } => {
            visit_expr(left, out);
            visit_expr(right, out);
        },
        Expr::Block(block) => visit_block(block, out),
        Expr::If { cond, then, els, .. } => {
            visit_expr(cond, out);
            visit_block(then, out);
            visit_block(els, out);
        },
        Expr::Throw { value, .. } => visit_expr(value, out),
        Expr::Panic { message, .. } => visit_expr(message, out),
        Expr::Question { value, .. } => visit_expr(value, out),
        Expr::Match { scrutinee, arms, .. } => {
            visit_expr(scrutinee, out);
            visit_arms(arms, out);
        },
        Expr::Try { body, arms, .. } => {
            visit_block(body, out);
            visit_arms(arms, out);
        },
        Expr::RecordLiteral { fields, .. } => visit_fields(fields, out),
        Expr::Field { target, .. } => visit_expr(target, out),
        _ => {},
    }
}

/// The steps of the bodies of functions, after `out`.
pub open spec fn functions_steps(out: Seq<Step>, s: Seq<Function>) -> Seq<Step>
    decreases s.len(),
{
    if s.len() == 0 {
        out
    } else {
        block_steps(functions_steps(out, s.drop_last()), s.last().body)
    }
}

fn visit_functions<'a>(s: &'a Vec<Function>, out: &mut Vec<Visit<'a>>)
    ensures
        steps(final(out)@) == functions_steps(steps(old(out)@), s@),
{
    let mut i: usize = 0;
    assert(s@.take(0).len() == 0);
    while i < s.len()
        invariant
            i <= s.len(),
            steps(out@) == functions_steps(steps(old(out)@), s@.take(i as int)),
        decreases s.len() - i,
    {
        proof {
            assert(s@.take(i + 1).drop_last() =~= s@.take(i as int));
            assert(s@.take(i + 1).last() == s@[i as int]);
        }
        visit_block(&s[i].body, out);
        i += 1;
    }
    assert(s@.take(s@.len() as int) =~= s@);
}

/// The steps of the methods of `impl` blocks, after `out`.
pub open spec fn impls_steps(out: Seq<Step>, s: Seq<ImplDecl>) -> Seq<Step>
    decreases s.len(),
{
    if s.len() == 0 {
        out
    } else {
        functions_steps(impls_steps(out, s.drop_last()), s.last().methods@)
    }
}

fn visit_impls<'a>(s: &'a Vec<ImplDecl>, out: &mut Vec<Visit<'a>>)
    ensures
        steps(final(out)@) == impls_steps(steps(old(out)@), s@),
{
    let mut i: usize = 0;
    assert(s@.take(0).len() == 0);
    while i < s.len()
        invariant
            i <= s.len(),
            steps(out@) == impls_steps(steps(old(out)@), s@.take(i as int)),
        decreases s.len() - i,
    {
        proof {
            assert(s@.take(i + 1).drop_last() =~= s@.take(i as int));
            assert(s@.take(i + 1).last() == s@[i as int]);
        }
        visit_functions(&s[i].methods, out);
        i += 1;
    }
    assert(s@.take(s@.len() as int) =~= s@);
}

/// The steps of the default bodies of trait methods, after `out`.
pub open spec fn defaults_steps(out: Seq<Step>, s: Seq<TraitMethodSig>) -> Seq<Step>
    decreases s.len(),
{
    if s.len() == 0 {
        out
    } else {
        match s.last().default_body {
            Some(body) => block_steps(defaults_steps(out, s.drop_last()), body),
            None => defaults_steps(out, s.drop_last()),
        }
    }
}

fn visit_defaults<'a>(s: &'a Vec<TraitMethodSig>, out: &mut Vec<Visit<'a>>)
    ensures
        steps(final(out)@) == defaults_steps(steps(old(out)@), s@),
{
    let mut i: usize = 0;
    assert(s@.take(0).len() == 0);
    while i < s.len()
        invariant
            i <= s.len(),
            steps(out@) == defaults_steps(steps(old(out)@), s@.take(i as int)),
        decreases s.len() - i,
    {
        proof {
            assert(s@.take(i + 1).drop_last() =~= s@.take(i as int));
            assert(s@.take(i + 1).last() == s@[i as int]);
        }
        if let Some(body) = &s[i].default_body {
            visit_block(body, out);
        }
        i += 1;
    }
    assert(s@.take(s@.len() as int) =~= s@);
}

/// The steps of the default bodies of traits, after `out`.
pub open spec fn traits_steps(out: Seq<Step>, s: Seq<TraitDecl>) -> Seq<Step>
    decreases s.len(),
{
    if s.len() == 0 {
        out
    } else {
        defaults_steps(traits_steps(out, s.drop_last()), s.last().methods@)
    }
}

fn visit_traits<'a>(s: &'a Vec<TraitDecl>, out: &mut Vec<Visit<'a>>)
    ensures
        steps(final(out)@) == traits_steps(steps(old(out)@), s@),
{
    let mut i: usize = 0;
    assert(s@.take(0).len() == 0);
    while i < s.len()
        invariant
            i <= s.len(),
            steps(out@) == traits_steps(steps(old(out)@), s@.take(i as int)),
        decreases s.len() - i,
    {
        proof {
            assert(s@.take(i + 1).drop_last() =~= s@.take(i as int));
            assert(s@.take(i + 1).last() == s@[i as int]);
        }
        visit_defaults(&s[i].methods, out);
        i += 1;
    }
    assert(s@.take(s@.len() as int) =~= s@);
}

/// The steps of every body of a program: functions, `impl` methods, default
/// bodies.
pub open spec fn program_steps(program: Program) -> Seq<Step> {
    traits_steps(
        impls_steps(functions_steps(Seq::empty(), program.functions@), program.impls@),
        program.traits@,
    )
}

/// Visits every body of a program.
pub fn visit_program(program: &Program) -> (r: Vec<Visit<'_>>)
    ensures
        steps(r@) == program_steps(*program),
{
    let mut out: Vec<Visit<'_>> = Vec::new();
    assert(steps(out@) =~= Seq::<Step>::empty());
    visit_functions(&program.functions, &mut out);
    visit_impls(&program.impls, &mut out);
    visit_traits(&program.traits, &mut out);
    out
}

} // verus!
