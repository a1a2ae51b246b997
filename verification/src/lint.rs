//! The linter: a fixed set of warning rules over a program that parses and
//! type-checks. There is no configuration and no suppression file; every finding
//! carries a rule id, and all findings are collected and shown in source order.
//!
//! The syntax rules (naming, unused imports and bindings) walk the root file's
//! own syntax tree, so imported modules and the prelude are never reported. The
//! effect rule compares each declared `uses { ... }` row with the row that the
//! type checker computed for the body.

use vstd::prelude::*;

use crate::ast::{
    Block, BlockItem, EnumDecl, EnumVariant, Expr, Extern, Function, ImplDecl, Import, MatchArm,
    Param, Pattern, Program, RecordDecl, RecordField, TraitDecl, TraitMethodSig,
};
use crate::ast_walk::{block_steps, steps, visit_block, Step, Visit};
use crate::error::{plain, reports, Diagnostic, Error, Mark, Problem, Report, Severity};
use crate::source::Extent;
use crate::strings::{contains_name, decimal, owned, push_decimal, texts};
use crate::subst::shorter;
use crate::typed::{TypedFunction, TypedProgram};
use crate::types::{tys, FunctionType, FnTy, Ty, Type};

verus! {

/// Whether a character has Unicode's `Uppercase` property.
pub uninterp spec fn uppercase(c: char) -> bool;

/// `char::is_uppercase` of the standard library: whether a character has
/// Unicode's `Uppercase` property. Of the ASCII characters those are the letters
/// `A` to `Z`.
#[verifier::external_body]
fn is_uppercase(c: char) -> (r: bool)
    ensures
        r == uppercase(c),
        (c as u32) < 128 ==> r == ('A' <= c && c <= 'Z'),
{
    c.is_uppercase()
}

/// A finding.
pub open spec fn finding(title: Seq<char>, code: Seq<char>, span: Extent, message: Seq<char>, help: Option<
    Seq<char>,
>) -> Report {
    Report {
        title,
        severity: Severity::Warning,
        code: Some(code),
        primary: Some(Mark { span, message }),
        help,
    }
}

/// A text in quotes.
pub open spec fn quoted(s: Seq<char>) -> Seq<char> {
    "`"@ + s + "`"@
}

fn quote(s: &str) -> (r: String)
    ensures
        r@ == quoted(s@),
{
    let mut out = owned("`");
    out.push_str(s);
    out.push_str("`");
    out
}

fn push_report(out: &mut Vec<Diagnostic>, d: Diagnostic)
    ensures
        reports(final(out)@) == reports(old(out)@).push(d@),
{
    let ghost before = reports(out@);
    out.push(d);
    assert(reports(out@) =~= before.push(d@));
}

/// Whether a name is `snake_case`: nothing in it is in upper case.
pub open spec fn snake_case(name: Seq<char>) -> bool {
    forall|i: int| 0 <= i < name.len() ==> !uppercase(#[trigger] name[i])
}

/// Whether a name is `PascalCase`: it begins with an ASCII capital and has no
/// underscore.
pub open spec fn pascal_case(name: Seq<char>) -> bool {
    name.len() > 0 && 'A' <= name[0] && name[0] <= 'Z' && !name.contains('_')
}

/// Whether a name is `snake_case`.
pub fn is_snake_case(name: &str) -> (r: bool)
    ensures
        r == snake_case(name@),
{
    let chars = crate::strings::chars_of(name);
    let mut i: usize = 0;
    while i < chars.len()
        invariant
            i <= chars.len(),
            chars@ == name@,
            forall|k: int| 0 <= k < i ==> !uppercase(#[trigger] name@[k]),
        decreases chars.len() - i,
    {
        if is_uppercase(chars[i]) {
            assert(uppercase(name@[i as int]));
            return false;
        }
        i += 1;
    }
    true
}

/// Whether a name is `PascalCase`.
pub fn is_pascal_case(name: &str) -> (r: bool)
    ensures
        r == pascal_case(name@),
{
    let chars = crate::strings::chars_of(name);
    if chars.len() == 0 || chars[0] < 'A' || chars[0] > 'Z' {
        return false;
    }
    let mut i: usize = 0;
    while i < chars.len()
        invariant
            i <= chars.len(),
            chars@ == name@,
            forall|k: int| 0 <= k < i ==> name@[k] != '_',
        decreases chars.len() - i,
    {
        if chars[i] == '_' {
            assert(name@.contains('_'));
            return false;
        }
        i += 1;
    }
    true
}

/// A finding where an identifier is not `snake_case`.
pub open spec fn warned_snake(out: Seq<Report>, name: Seq<char>, span: Extent, what: Seq<char>) -> Seq<
    Report,
> {
    if snake_case(name) {
        out
    } else {
        out.push(
            finding(
                what + " "@ + quoted(name) + " is not snake_case"@,
                "naming/snake-case"@,
                span,
                "identifiers use snake_case"@,
                None,
            ),
        )
    }
}

/// A finding where the name of a type or a variant is not `PascalCase`.
pub open spec fn warned_pascal(out: Seq<Report>, name: Seq<char>, span: Extent, what: Seq<char>) -> Seq<
    Report,
> {
    if pascal_case(name) {
        out
    } else {
        out.push(
            finding(
                what + " "@ + quoted(name) + " is not PascalCase"@,
                "naming/pascal-case"@,
                span,
                "types and enum variants use PascalCase"@,
                None,
            ),
        )
    }
}

fn warn_snake(out: &mut Vec<Diagnostic>, name: &str, span: &crate::source::Span, what: &str)
    ensures
        reports(final(out)@) == warned_snake(reports(old(out)@), name@, span@, what@),
{
    if !is_snake_case(name) {
        let mut title = owned(what);
        title.push_str(" ");
        let shown = quote(name);
        title.push_str(shown.as_str());
        title.push_str(" is not snake_case");
        let d = Diagnostic::warning(
            title,
            "naming/snake-case",
            span.copy(),
            owned("identifiers use snake_case"),
            None,
        );
        push_report(out, d);
    }
}

fn warn_pascal(out: &mut Vec<Diagnostic>, name: &str, span: &crate::source::Span, what: &str)
    ensures
        reports(final(out)@) == warned_pascal(reports(old(out)@), name@, span@, what@),
{
    if !is_pascal_case(name) {
        let mut title = owned(what);
        title.push_str(" ");
        let shown = quote(name);
        title.push_str(shown.as_str());
        title.push_str(" is not PascalCase");
        let d = Diagnostic::warning(
            title,
            "naming/pascal-case",
            span.copy(),
            owned("types and enum variants use PascalCase"),
            None,
        );
        push_report(out, d);
    }
}

/// Findings on the names of parameters.
pub open spec fn named_params(out: Seq<Report>, s: Seq<Param>) -> Seq<Report>
    decreases s.len(),
{
    if s.len() == 0 {
        out
    } else {
        let p = s.last();
        warned_snake(named_params(out, s.drop_last()), p.name@, p.name_span@, "parameter"@)
    }
}

/// Findings on the names that one step of a walk binds.
pub open spec fn named_step(out: Seq<Report>, s: Step) -> Seq<Report> {
    match s {
        Step::Item(BlockItem::Let { name, name_span, .. }) => warned_snake(
            out,
            name@,
            name_span@,
            "binding"@,
        ),
        Step::Expr(Expr::Fn { params, .. }) => named_params(out, params@),
        _ => out,
    }
}

/// Findings on the names that a walk binds.
pub open spec fn named_steps(out: Seq<Report>, s: Seq<Step>) -> Seq<Report>
    decreases s.len(),
{
    if s.len() == 0 {
        out
    } else {
        named_step(named_steps(out, s.drop_last()), s.last())
    }
}

/// What a walk over a body comes by.
pub open spec fn body_steps(body: Block) -> Seq<Step> {
    block_steps(Seq::empty(), body)
}

/// Findings on the names that a body binds.
pub open spec fn named_body(out: Seq<Report>, body: Block) -> Seq<Report> {
    named_steps(out, body_steps(body))
}

fn visits<'a>(body: &'a Block) -> (r: Vec<Visit<'a>>)
    ensures
        steps(r@) == body_steps(*body),
{
    let mut all: Vec<Visit<'a>> = Vec::new();
    assert(steps(all@) =~= Seq::<Step>::empty());
    visit_block(body, &mut all);
    all
}

fn name_params(out: &mut Vec<Diagnostic>, s: &Vec<Param>)
    ensures
        reports(final(out)@) == named_params(reports(old(out)@), s@),
{
    let mut i: usize = 0;
    assert(s@.take(0).len() == 0);
    while i < s.len()
        invariant
            i <= s.len(),
            reports(out@) == named_params(reports(old(out)@), s@.take(i as int)),
        decreases s.len() - i,
    {
        warn_snake(out, s[i].name.as_str(), &s[i].name_span, "parameter");
        proof {
            assert(s@.take(i + 1).drop_last() =~= s@.take(i as int));
            assert(s@.take(i + 1).last() == s@[i as int]);
        }
        i += 1;
    }
    assert(s@.take(s@.len() as int) =~= s@);
}

fn name_step(out: &mut Vec<Diagnostic>, v: &Visit<'_>)
    ensures
        reports(final(out)@) == named_step(reports(old(out)@), v@),
{
    match v {
        Visit::Item(item) => {
            if let BlockItem::Let { name, name_span, .. } = item {
                warn_snake(out, name.as_str(), name_span, "binding");
            }
        },
        Visit::Expr(e) => {
            if let Expr::Fn { params, .. } = e {
                name_params(out, params);
            }
        },
    }
}

fn name_body(out: &mut Vec<Diagnostic>, body: &Block)
    ensures
        reports(final(out)@) == named_body(reports(old(out)@), *body),
{
    let all = visits(body);
    let ghost s = steps(all@);
    let mut i: usize = 0;
    assert(s.len() == all@.len());
    assert(s.take(0).len() == 0);
    while i < all.len()
        invariant
            i <= all.len(),
            s == steps(all@),
            s.len() == all@.len(),
            reports(out@) == named_steps(reports(old(out)@), s.take(i as int)),
        decreases all.len() - i,
    {
        name_step(out, &all[i]);
        proof {
            assert(s.take(i + 1).drop_last() =~= s.take(i as int));
            assert(s.take(i + 1).last() == all@[i as int]@);
        }
        i += 1;
    }
    assert(s.take(s.len() as int) =~= s);
}

/// Findings on the names in a function.
pub open spec fn named_function(out: Seq<Report>, f: Function) -> Seq<Report> {
    named_body(
        named_params(warned_snake(out, f.name@, f.name_span@, "function"@), f.params@),
        f.body,
    )
}

/// Findings on the names in a bodyless function.
pub open spec fn named_extern(out: Seq<Report>, f: Extern) -> Seq<Report> {
    named_params(warned_snake(out, f.name@, f.name_span@, "function"@), f.params@)
}

/// Findings on the name of a variant.
pub open spec fn named_variant(out: Seq<Report>, v: EnumVariant) -> Seq<Report> {
    warned_pascal(out, v.name@, v.name_span@, "variant"@)
}

/// Findings on the names of variants.
pub open spec fn named_variants(out: Seq<Report>, s: Seq<EnumVariant>) -> Seq<Report>
    decreases s.len(),
{
    if s.len() == 0 {
        out
    } else {
        named_variant(named_variants(out, s.drop_last()), s.last())
    }
}

/// Findings on the names in an enum.
pub open spec fn named_enum(out: Seq<Report>, d: EnumDecl) -> Seq<Report> {
    named_variants(warned_pascal(out, d.name@, d.name_span@, "enum"@), d.variants@)
}

/// Findings on the names in a method of a trait.
pub open spec fn named_signature(out: Seq<Report>, m: TraitMethodSig) -> Seq<Report> {
    let head = named_params(
        warned_snake(out, m.name@, m.name_span@, "function"@),
        m.params@,
    );
    match m.default_body {
        Some(body) => named_body(head, body),
        None => head,
    }
}

/// Findings on the names in methods of a trait.
pub open spec fn named_signatures(out: Seq<Report>, s: Seq<TraitMethodSig>) -> Seq<Report>
    decreases s.len(),
{
    if s.len() == 0 {
        out
    } else {
        named_signature(named_signatures(out, s.drop_last()), s.last())
    }
}

/// Findings on the names in a trait.
pub open spec fn named_trait(out: Seq<Report>, d: TraitDecl) -> Seq<Report> {
    named_signatures(warned_pascal(out, d.name@, d.name_span@, "trait"@), d.methods@)
}

/// Findings on the names in a method of an impl. Its own name is fixed by the
/// trait; the names of its parameters and bindings are the author's.
pub open spec fn named_method(out: Seq<Report>, f: Function) -> Seq<Report> {
    named_body(named_params(out, f.params@), f.body)
}

/// Findings on the names in methods of an impl.
pub open spec fn named_methods(out: Seq<Report>, s: Seq<Function>) -> Seq<Report>
    decreases s.len(),
{
    if s.len() == 0 {
        out
    } else {
        named_method(named_methods(out, s.drop_last()), s.last())
    }
}

/// Findings on the names in an impl.
pub open spec fn named_impl(out: Seq<Report>, d: ImplDecl) -> Seq<Report> {
    named_methods(out, d.methods@)
}

/// Findings on the names in functions.
pub open spec fn named_functions(out: Seq<Report>, s: Seq<Function>) -> Seq<Report>
    decreases s.len(),
{
    if s.len() == 0 {
        out
    } else {
        named_function(named_functions(out, s.drop_last()), s.last())
    }
}

/// Findings on the names in bodyless functions.
pub open spec fn named_externs(out: Seq<Report>, s: Seq<Extern>) -> Seq<Report>
    decreases s.len(),
{
    if s.len() == 0 {
        out
    } else {
        named_extern(named_externs(out, s.drop_last()), s.last())
    }
}

/// Findings on the names in enums.
pub open spec fn named_enums(out: Seq<Report>, s: Seq<EnumDecl>) -> Seq<Report>
    decreases s.len(),
{
    if s.len() == 0 {
        out
    } else {
        named_enum(named_enums(out, s.drop_last()), s.last())
    }
}

/// Findings on the names in traits.
pub open spec fn named_traits(out: Seq<Report>, s: Seq<TraitDecl>) -> Seq<Report>
    decreases s.len(),
{
    if s.len() == 0 {
        out
    } else {
        named_trait(named_traits(out, s.drop_last()), s.last())
    }
}

/// Findings on the names in impls.
pub open spec fn named_impls(out: Seq<Report>, s: Seq<ImplDecl>) -> Seq<Report>
    decreases s.len(),
{
    if s.len() == 0 {
        out
    } else {
        named_impl(named_impls(out, s.drop_last()), s.last())
    }
}

/// Findings on the names in a program.
pub open spec fn naming(out: Seq<Report>, p: Program) -> Seq<Report> {
    named_impls(
        named_traits(
            named_enums(
                named_externs(named_functions(out, p.functions@), p.externs@),
                p.enums@,
            ),
            p.traits@,
        ),
        p.impls@,
    )
}

fn name_function(out: &mut Vec<Diagnostic>, f: &Function)
    ensures
        reports(final(out)@) == named_function(reports(old(out)@), *f),
{
    warn_snake(out, f.name.as_str(), &f.name_span, "function");
    name_params(out, &f.params);
    name_body(out, &f.body);
}

fn name_extern(out: &mut Vec<Diagnostic>, f: &Extern)
    ensures
        reports(final(out)@) == named_extern(reports(old(out)@), *f),
{
    warn_snake(out, f.name.as_str(), &f.name_span, "function");
    name_params(out, &f.params);
}

fn name_variant(out: &mut Vec<Diagnostic>, v: &EnumVariant)
    ensures
        reports(final(out)@) == named_variant(reports(old(out)@), *v),
{
    warn_pascal(out, v.name.as_str(), &v.name_span, "variant");
}

fn name_enum(out: &mut Vec<Diagnostic>, d: &EnumDecl)
    ensures
        reports(final(out)@) == named_enum(reports(old(out)@), *d),
{
    warn_pascal(out, d.name.as_str(), &d.name_span, "enum");
    name_variants(out, &d.variants);
}

fn name_signature(out: &mut Vec<Diagnostic>, m: &TraitMethodSig)
    ensures
        reports(final(out)@) == named_signature(reports(old(out)@), *m),
{
    warn_snake(out, m.name.as_str(), &m.name_span, "function");
    name_params(out, &m.params);
    if let Some(body) = &m.default_body {
        name_body(out, body);
    }
}

fn name_trait(out: &mut Vec<Diagnostic>, d: &TraitDecl)
    ensures
        reports(final(out)@) == named_trait(reports(old(out)@), *d),
{
    warn_pascal(out, d.name.as_str(), &d.name_span, "trait");
    name_signatures(out, &d.methods);
}

fn name_method(out: &mut Vec<Diagnostic>, f: &Function)
    ensures
        reports(final(out)@) == named_method(reports(old(out)@), *f),
{
    name_params(out, &f.params);
    name_body(out, &f.body);
}

fn name_impl(out: &mut Vec<Diagnostic>, d: &ImplDecl)
    ensures
        reports(final(out)@) == named_impl(reports(old(out)@), *d),
{
    name_methods(out, &d.methods);
}

fn name_variants(out: &mut Vec<Diagnostic>, s: &Vec<EnumVariant>)
    ensures
        reports(final(out)@) == named_variants(reports(old(out)@), s@),
{
    let mut i: usize = 0;
    assert(s@.take(0).len() == 0);
    while i < s.len()
        invariant
            i <= s.len(),
            reports(out@) == named_variants(reports(old(out)@), s@.take(i as int)),
        decreases s.len() - i,
    {
        name_variant(out, &s[i]);
        proof {
            assert(s@.take(i + 1).drop_last() =~= s@.take(i as int));
            assert(s@.take(i + 1).last() == s@[i as int]);
        }
        i += 1;
    }
    assert(s@.take(s@.len() as int) =~= s@);
}

fn name_signatures(out: &mut Vec<Diagnostic>, s: &Vec<TraitMethodSig>)
    ensures
        reports(final(out)@) == named_signatures(reports(old(out)@), s@),
{
    let mut i: usize = 0;
    assert(s@.take(0).len() == 0);
    while i < s.len()
        invariant
            i <= s.len(),
            reports(out@) == named_signatures(reports(old(out)@), s@.take(i as int)),
        decreases s.len() - i,
    {
        name_signature(out, &s[i]);
        proof {
            assert(s@.take(i + 1).drop_last() =~= s@.take(i as int));
            assert(s@.take(i + 1).last() == s@[i as int]);
        }
        i += 1;
    }
    assert(s@.take(s@.len() as int) =~= s@);
}

fn name_methods(out: &mut Vec<Diagnostic>, s: &Vec<Function>)
    ensures
        reports(final(out)@) == named_methods(reports(old(out)@), s@),
{
    let mut i: usize = 0;
    assert(s@.take(0).len() == 0);
    while i < s.len()
        invariant
            i <= s.len(),
            reports(out@) == named_methods(reports(old(out)@), s@.take(i as int)),
        decreases s.len() - i,
    {
        name_method(out, &s[i]);
        proof {
            assert(s@.take(i + 1).drop_last() =~= s@.take(i as int));
            assert(s@.take(i + 1).last() == s@[i as int]);
        }
        i += 1;
    }
    assert(s@.take(s@.len() as int) =~= s@);
}

fn name_functions(out: &mut Vec<Diagnostic>, s: &Vec<Function>)
    ensures
        reports(final(out)@) == named_functions(reports(old(out)@), s@),
{
    let mut i: usize = 0;
    assert(s@.take(0).len() == 0);
    while i < s.len()
        invariant
            i <= s.len(),
            reports(out@) == named_functions(reports(old(out)@), s@.take(i as int)),
        decreases s.len() - i,
    {
        name_function(out, &s[i]);
        proof {
            assert(s@.take(i + 1).drop_last() =~= s@.take(i as int));
            assert(s@.take(i + 1).last() == s@[i as int]);
        }
        i += 1;
    }
    assert(s@.take(s@.len() as int) =~= s@);
}

fn name_externs(out: &mut Vec<Diagnostic>, s: &Vec<Extern>)
    ensures
        reports(final(out)@) == named_externs(reports(old(out)@), s@),
{
    let mut i: usize = 0;
    assert(s@.take(0).len() == 0);
    while i < s.len()
        invariant
            i <= s.len(),
            reports(out@) == named_externs(reports(old(out)@), s@.take(i as int)),
        decreases s.len() - i,
    {
        name_extern(out, &s[i]);
        proof {
            assert(s@.take(i + 1).drop_last() =~= s@.take(i as int));
            assert(s@.take(i + 1).last() == s@[i as int]);
        }
        i += 1;
    }
    assert(s@.take(s@.len() as int) =~= s@);
}

fn name_enums(out: &mut Vec<Diagnostic>, s: &Vec<EnumDecl>)
    ensures
        reports(final(out)@) == named_enums(reports(old(out)@), s@),
{
    let mut i: usize = 0;
    assert(s@.take(0).len() == 0);
    while i < s.len()
        invariant
            i <= s.len(),
            reports(out@) == named_enums(reports(old(out)@), s@.take(i as int)),
        decreases s.len() - i,
    {
        name_enum(out, &s[i]);
        proof {
            assert(s@.take(i + 1).drop_last() =~= s@.take(i as int));
            assert(s@.take(i + 1).last() == s@[i as int]);
        }
        i += 1;
    }
    assert(s@.take(s@.len() as int) =~= s@);
}

fn name_traits(out: &mut Vec<Diagnostic>, s: &Vec<TraitDecl>)
    ensures
        reports(final(out)@) == named_traits(reports(old(out)@), s@),
{
    let mut i: usize = 0;
    assert(s@.take(0).len() == 0);
    while i < s.len()
        invariant
            i <= s.len(),
            reports(out@) == named_traits(reports(old(out)@), s@.take(i as int)),
        decreases s.len() - i,
    {
        name_trait(out, &s[i]);
        proof {
            assert(s@.take(i + 1).drop_last() =~= s@.take(i as int));
            assert(s@.take(i + 1).last() == s@[i as int]);
        }
        i += 1;
    }
    assert(s@.take(s@.len() as int) =~= s@);
}

fn name_impls(out: &mut Vec<Diagnostic>, s: &Vec<ImplDecl>)
    ensures
        reports(final(out)@) == named_impls(reports(old(out)@), s@),
{
    let mut i: usize = 0;
    assert(s@.take(0).len() == 0);
    while i < s.len()
        invariant
            i <= s.len(),
            reports(out@) == named_impls(reports(old(out)@), s@.take(i as int)),
        decreases s.len() - i,
    {
        name_impl(out, &s[i]);
        proof {
            assert(s@.take(i + 1).drop_last() =~= s@.take(i as int));
            assert(s@.take(i + 1).last() == s@[i as int]);
        }
        i += 1;
    }
    assert(s@.take(s@.len() as int) =~= s@);
}

/// The names that a type mentions, after `out`.
pub open spec fn used_ty(out: Seq<Seq<char>>, t: Ty) -> Seq<Seq<char>>
    decreases t,
{
    match t {
        Ty::Enum(name, args) => used_tys(out.push(name), args),
        Ty::Array(inner) => used_ty(out, *inner),
        Ty::Option(inner) => used_ty(out, *inner),
        Ty::Function(f) => used_fn(out, f),
        _ => out,
    }
}

/// The names that a function type mentions, after `out`.
pub open spec fn used_fn(out: Seq<Seq<char>>, f: FnTy) -> Seq<Seq<char>>
    decreases f,
{
    let head = used_ty(used_tys(out, f.params), *f.ret);
    match f.throws {
        Some(t) => used_ty(head, *t),
        None => head,
    }
}

/// The names that types mention, after `out`.
pub open spec fn used_tys(out: Seq<Seq<char>>, s: Seq<Ty>) -> Seq<Seq<char>>
    decreases s,
{
    if s.len() == 0 {
        out
    } else {
        used_ty(used_tys(out, s.drop_last()), s.last())
    }
}

fn push_name(out: &mut Vec<String>, name: &str)
    ensures
        texts(final(out)@) == texts(old(out)@).push(name@),
{
    let ghost before = texts(out@);
    out.push(owned(name));
    assert(texts(out@) =~= before.push(name@));
}

fn use_type(out: &mut Vec<String>, t: &Type)
    ensures
        texts(final(out)@) == used_ty(texts(old(out)@), t@),
    decreases t, 1nat,
{
    match t {
        Type::Enum(name, args) => {
            assert(t@ == Ty::Enum(name@, tys(args@)));
            push_name(out, name.as_str());
            use_types(out, args);
        },
        Type::Array(inner) => use_type(out, inner),
        Type::Option(inner) => use_type(out, inner),
        Type::Function(f) => use_fn(out, f),
        _ => {},
    }
}

fn use_fn(out: &mut Vec<String>, f: &FunctionType)
    ensures
        texts(final(out)@) == used_fn(texts(old(out)@), f@),
    decreases f, 0nat,
{
    proof {
        assert(f@.params == tys(f.params@));
        assert(f@.ret == Box::new(f.ret@));
        assert(f@.throws is Some == f.throws is Some);
    }
    use_types(out, &f.params);
    use_type(out, &f.ret);
    if let Some(t) = &f.throws {
        use_type(out, t);
    }
}

fn use_types(out: &mut Vec<String>, s: &Vec<Type>)
    ensures
        texts(final(out)@) == used_tys(texts(old(out)@), tys(s@)),
    decreases s@, 0nat,
{
    let ghost all = tys(s@);
    let mut i: usize = 0;
    assert(all.len() == s@.len());
    assert(all.take(0).len() == 0);
    while i < s.len()
        invariant
            i <= s.len(),
            all == tys(s@),
            all.len() == s@.len(),
            texts(out@) == used_tys(texts(old(out)@), all.take(i as int)),
        decreases s.len() - i,
    {
        use_type(out, &s[i]);
        proof {
            assert(all.take(i + 1).drop_last() =~= all.take(i as int));
            assert(all.take(i + 1).last() == s@[i as int]@);
        }
        i += 1;
    }
    assert(all.take(all.len() as int) =~= all);
}

/// The names that the types of parameters mention, after `out`.
pub open spec fn used_params(out: Seq<Seq<char>>, s: Seq<Param>) -> Seq<Seq<char>>
    decreases s.len(),
{
    if s.len() == 0 {
        out
    } else {
        used_ty(used_params(out, s.drop_last()), s.last().ty@)
    }
}

/// The names that a signature mentions, after `out`.
pub open spec fn used_signature(out: Seq<Seq<char>>, params: Seq<Param>, ret: Type, throws: Option<
    Type,
>) -> Seq<Seq<char>> {
    let head = used_ty(used_params(out, params), ret@);
    match throws {
        Some(t) => used_ty(head, t@),
        None => head,
    }
}

fn use_params(out: &mut Vec<String>, s: &Vec<Param>)
    ensures
        texts(final(out)@) == used_params(texts(old(out)@), s@),
{
    let mut i: usize = 0;
    assert(s@.take(0).len() == 0);
    while i < s.len()
        invariant
            i <= s.len(),
            texts(out@) == used_params(texts(old(out)@), s@.take(i as int)),
        decreases s.len() - i,
    {
        use_type(out, &s[i].ty);
        proof {
            assert(s@.take(i + 1).drop_last() =~= s@.take(i as int));
            assert(s@.take(i + 1).last() == s@[i as int]);
        }
        i += 1;
    }
    assert(s@.take(s@.len() as int) =~= s@);
}

fn use_signature(out: &mut Vec<String>, params: &Vec<Param>, ret: &Type, throws: &Option<Type>)
    ensures
        texts(final(out)@) == used_signature(texts(old(out)@), params@, *ret, *throws),
{
    use_params(out, params);
    use_type(out, ret);
    if let Some(t) = throws {
        use_type(out, t);
    }
}

/// The names that the pattern of an arm mentions, after `out`.
pub open spec fn used_pattern(out: Seq<Seq<char>>, p: Pattern) -> Seq<Seq<char>> {
    match p {
        Pattern::Variant { enum_name, variant, .. } => match enum_name {
            Some(name) => out.push(name@).push(variant@),
            None => out.push(variant@),
        },
        _ => out,
    }
}

/// The names that the patterns of arms mention, after `out`.
pub open spec fn used_patterns(out: Seq<Seq<char>>, s: Seq<MatchArm>) -> Seq<Seq<char>>
    decreases s.len(),
{
    if s.len() == 0 {
        out
    } else {
        used_pattern(used_patterns(out, s.drop_last()), s.last().pattern)
    }
}

/// The names that one step of a walk mentions, after `out`.
pub open spec fn used_step(out: Seq<Seq<char>>, s: Step) -> Seq<Seq<char>> {
    match s {
        Step::Item(BlockItem::Let { ty, .. }) => match ty {
            Some(t) => used_ty(out, t@),
            None => out,
        },
        Step::Expr(Expr::Var(name, _)) => out.push(name@),
        Step::Expr(Expr::Path { segments, .. }) => out + texts(segments@),
        Step::Expr(Expr::TypePath { segments, .. }) => out + texts(segments@),
        Step::Expr(Expr::Fn { params, ret, throws, .. }) => used_signature(
            out,
            params@,
            ret,
            throws,
        ),
        Step::Expr(Expr::Match { arms, .. }) => used_patterns(out, arms@),
        Step::Expr(Expr::Try { arms, .. }) => used_patterns(out, arms@),
        Step::Expr(Expr::RecordLiteral { name, .. }) => out.push(name@),
        _ => out,
    }
}

/// The names that a walk mentions, after `out`.
pub open spec fn used_steps(out: Seq<Seq<char>>, s: Seq<Step>) -> Seq<Seq<char>>
    decreases s.len(),
{
    if s.len() == 0 {
        out
    } else {
        used_step(used_steps(out, s.drop_last()), s.last())
    }
}

/// The names that a body mentions, after `out`.
pub open spec fn used_body(out: Seq<Seq<char>>, body: Block) -> Seq<Seq<char>> {
    used_steps(out, body_steps(body))
}

fn push_names(out: &mut Vec<String>, s: &Vec<String>)
    ensures
        texts(final(out)@) == texts(old(out)@) + texts(s@),
{
    let ghost first = texts(out@);
    let ghost all = texts(s@);
    let mut i: usize = 0;
    assert(all.len() == s@.len());
    assert(first + all.take(0) =~= first);
    while i < s.len()
        invariant
            i <= s.len(),
            all == texts(s@),
            all.len() == s@.len(),
            texts(out@) == first + all.take(i as int),
        decreases s.len() - i,
    {
        push_name(out, s[i].as_str());
        assert(first + all.take(i + 1) =~= (first + all.take(i as int)).push(s@[i as int]@));
        i += 1;
    }
    assert(all.take(all.len() as int) =~= all);
}

fn use_patterns(out: &mut Vec<String>, s: &Vec<MatchArm>)
    ensures
        texts(final(out)@) == used_patterns(texts(old(out)@), s@),
{
    let mut i: usize = 0;
    assert(s@.take(0).len() == 0);
    while i < s.len()
        invariant
            i <= s.len(),
            texts(out@) == used_patterns(texts(old(out)@), s@.take(i as int)),
        decreases s.len() - i,
    {
        if let Pattern::Variant { enum_name, variant, .. } = &s[i].pattern {
            if let Some(name) = enum_name {
                push_name(out, name.as_str());
            }
            push_name(out, variant.as_str());
        }
        proof {
            assert(s@.take(i + 1).drop_last() =~= s@.take(i as int));
            assert(s@.take(i + 1).last() == s@[i as int]);
        }
        i += 1;
    }
    assert(s@.take(s@.len() as int) =~= s@);
}

fn use_step(out: &mut Vec<String>, v: &Visit<'_>)
    ensures
        texts(final(out)@) == used_step(texts(old(out)@), v@),
{
    match v {
        Visit::Item(item) => {
            if let BlockItem::Let { ty, .. } = item {
                if let Some(t) = ty {
                    use_type(out, t);
                }
            }
        },
        Visit::Expr(e) => match e {
            Expr::Var(name, _) => push_name(out, name.as_str()),
            Expr::Path { segments, .. } => push_names(out, segments),
            Expr::TypePath { segments, .. } => push_names(out, segments),
            Expr::Fn { params, ret, throws, .. } => use_signature(out, params, ret, throws),
            Expr::Match { arms, .. } => use_patterns(out, arms),
            Expr::Try { arms, .. } => use_patterns(out, arms),
            Expr::RecordLiteral { name, .. } => push_name(out, name.as_str()),
            _ => {},
        },
    }
}

fn use_body(out: &mut Vec<String>, body: &Block)
    ensures
        texts(final(out)@) == used_body(texts(old(out)@), *body),
{
    let all = visits(body);
    let ghost s = steps(all@);
    let mut i: usize = 0;
    assert(s.len() == all@.len());
    assert(s.take(0).len() == 0);
    while i < all.len()
        invariant
            i <= all.len(),
            s == steps(all@),
            s.len() == all@.len(),
            texts(out@) == used_steps(texts(old(out)@), s.take(i as int)),
        decreases all.len() - i,
    {
        use_step(out, &all[i]);
        proof {
            assert(s.take(i + 1).drop_last() =~= s.take(i as int));
            assert(s.take(i + 1).last() == all@[i as int]@);
        }
        i += 1;
    }
    assert(s.take(s.len() as int) =~= s);
}

/// The names that a function mentions, after `out`.
pub open spec fn used_function(out: Seq<Seq<char>>, f: Function) -> Seq<Seq<char>> {
    used_body(used_signature(out, f.params@, f.ret, f.throws), f.body)
}

/// The names that a bodyless function mentions, after `out`.
pub open spec fn used_extern(out: Seq<Seq<char>>, f: Extern) -> Seq<Seq<char>> {
    used_signature(out, f.params@, f.ret, f.throws)
}

/// The names that a variant mentions, after `out`.
pub open spec fn used_variant(out: Seq<Seq<char>>, v: EnumVariant) -> Seq<Seq<char>> {
    used_tys(out, tys(v.fields@))
}

/// The names that an enum mentions, after `out`.
pub open spec fn used_enum(out: Seq<Seq<char>>, d: EnumDecl) -> Seq<Seq<char>> {
    used_variants(out, d.variants@)
}

/// The names that a field of a record mentions, after `out`.
pub open spec fn used_field(out: Seq<Seq<char>>, f: RecordField) -> Seq<Seq<char>> {
    used_ty(out, f.ty@)
}

/// The names that a record mentions, after `out`.
pub open spec fn used_record(out: Seq<Seq<char>>, d: RecordDecl) -> Seq<Seq<char>> {
    used_fields(out, d.fields@)
}

/// The names that a method of a trait mentions, after `out`.
pub open spec fn used_method(out: Seq<Seq<char>>, m: TraitMethodSig) -> Seq<Seq<char>> {
    let head = used_signature(out, m.params@, m.ret, m.throws);
    match m.default_body {
        Some(body) => used_body(head, body),
        None => head,
    }
}

/// The names that a trait mentions, after `out`.
pub open spec fn used_trait(out: Seq<Seq<char>>, d: TraitDecl) -> Seq<Seq<char>> {
    used_methods(out, d.methods@)
}

/// The names that an impl mentions, after `out`.
pub open spec fn used_impl(out: Seq<Seq<char>>, d: ImplDecl) -> Seq<Seq<char>> {
    used_functions(used_ty(out.push(d.trait_name@), d.target@), d.methods@)
}

/// The names that functions mention, after `out`.
pub open spec fn used_functions(out: Seq<Seq<char>>, s: Seq<Function>) -> Seq<Seq<char>>
    decreases s.len(),
{
    if s.len() == 0 {
        out
    } else {
        used_function(used_functions(out, s.drop_last()), s.last())
    }
}

/// The names that bodyless functions mention, after `out`.
pub open spec fn used_externs(out: Seq<Seq<char>>, s: Seq<Extern>) -> Seq<Seq<char>>
    decreases s.len(),
{
    if s.len() == 0 {
        out
    } else {
        used_extern(used_externs(out, s.drop_last()), s.last())
    }
}

/// The names that variants mention, after `out`.
pub open spec fn used_variants(out: Seq<Seq<char>>, s: Seq<EnumVariant>) -> Seq<Seq<char>>
    decreases s.len(),
{
    if s.len() == 0 {
        out
    } else {
        used_variant(used_variants(out, s.drop_last()), s.last())
    }
}

/// The names that enums mention, after `out`.
pub open spec fn used_enums(out: Seq<Seq<char>>, s: Seq<EnumDecl>) -> Seq<Seq<char>>
    decreases s.len(),
{
    if s.len() == 0 {
        out
    } else {
        used_enum(used_enums(out, s.drop_last()), s.last())
    }
}

/// The names that fields mention, after `out`.
pub open spec fn used_fields(out: Seq<Seq<char>>, s: Seq<RecordField>) -> Seq<Seq<char>>
    decreases s.len(),
{
    if s.len() == 0 {
        out
    } else {
        used_field(used_fields(out, s.drop_last()), s.last())
    }
}

/// The names that records mention, after `out`.
pub open spec fn used_records(out: Seq<Seq<char>>, s: Seq<RecordDecl>) -> Seq<Seq<char>>
    decreases s.len(),
{
    if s.len() == 0 {
        out
    } else {
        used_record(used_records(out, s.drop_last()), s.last())
    }
}

/// The names that methods of a trait mention, after `out`.
pub open spec fn used_methods(out: Seq<Seq<char>>, s: Seq<TraitMethodSig>) -> Seq<Seq<char>>
    decreases s.len(),
{
    if s.len() == 0 {
        out
    } else {
        used_method(used_methods(out, s.drop_last()), s.last())
    }
}

/// The names that traits mention, after `out`.
pub open spec fn used_traits(out: Seq<Seq<char>>, s: Seq<TraitDecl>) -> Seq<Seq<char>>
    decreases s.len(),
{
    if s.len() == 0 {
        out
    } else {
        used_trait(used_traits(out, s.drop_last()), s.last())
    }
}

/// The names that impls mention, after `out`.
pub open spec fn used_impls(out: Seq<Seq<char>>, s: Seq<ImplDecl>) -> Seq<Seq<char>>
    decreases s.len(),
{
    if s.len() == 0 {
        out
    } else {
        used_impl(used_impls(out, s.drop_last()), s.last())
    }
}

/// The names that a program mentions: as a value, a path segment, a type name or
/// in a pattern.
pub open spec fn used_names(p: Program) -> Seq<Seq<char>> {
    used_impls(
        used_traits(
            used_records(
                used_enums(
                    used_externs(used_functions(Seq::empty(), p.functions@), p.externs@),
                    p.enums@,
                ),
                p.records@,
            ),
            p.traits@,
        ),
        p.impls@,
    )
}

fn use_function(out: &mut Vec<String>, f: &Function)
    ensures
        texts(final(out)@) == used_function(texts(old(out)@), *f),
{
    use_signature(out, &f.params, &f.ret, &f.throws);
    use_body(out, &f.body);
}

fn use_extern(out: &mut Vec<String>, f: &Extern)
    ensures
        texts(final(out)@) == used_extern(texts(old(out)@), *f),
{
    use_signature(out, &f.params, &f.ret, &f.throws);
}

fn use_variant(out: &mut Vec<String>, v: &EnumVariant)
    ensures
        texts(final(out)@) == used_variant(texts(old(out)@), *v),
{
    use_types(out, &v.fields);
}

fn use_enum(out: &mut Vec<String>, d: &EnumDecl)
    ensures
        texts(final(out)@) == used_enum(texts(old(out)@), *d),
{
    use_variants(out, &d.variants);
}

fn use_field(out: &mut Vec<String>, f: &RecordField)
    ensures
        texts(final(out)@) == used_field(texts(old(out)@), *f),
{
    use_type(out, &f.ty);
}

fn use_record(out: &mut Vec<String>, d: &RecordDecl)
    ensures
        texts(final(out)@) == used_record(texts(old(out)@), *d),
{
    use_fields(out, &d.fields);
}

fn use_method(out: &mut Vec<String>, m: &TraitMethodSig)
    ensures
        texts(final(out)@) == used_method(texts(old(out)@), *m),
{
    use_signature(out, &m.params, &m.ret, &m.throws);
    if let Some(body) = &m.default_body {
        use_body(out, body);
    }
}

fn use_trait(out: &mut Vec<String>, d: &TraitDecl)
    ensures
        texts(final(out)@) == used_trait(texts(old(out)@), *d),
{
    use_methods(out, &d.methods);
}

fn use_impl(out: &mut Vec<String>, d: &ImplDecl)
    ensures
        texts(final(out)@) == used_impl(texts(old(out)@), *d),
{
    push_name(out, d.trait_name.as_str());
    use_type(out, &d.target);
    use_functions(out, &d.methods);
}

fn use_functions(out: &mut Vec<String>, s: &Vec<Function>)
    ensures
        texts(final(out)@) == used_functions(texts(old(out)@), s@),
{
    let mut i: usize = 0;
    assert(s@.take(0).len() == 0);
    while i < s.len()
        invariant
            i <= s.len(),
            texts(out@) == used_functions(texts(old(out)@), s@.take(i as int)),
        decreases s.len() - i,
    {
        use_function(out, &s[i]);
        proof {
            assert(s@.take(i + 1).drop_last() =~= s@.take(i as int));
            assert(s@.take(i + 1).last() == s@[i as int]);
        }
        i += 1;
    }
    assert(s@.take(s@.len() as int) =~= s@);
}

fn use_externs(out: &mut Vec<String>, s: &Vec<Extern>)
    ensures
        texts(final(out)@) == used_externs(texts(old(out)@), s@),
{
    let mut i: usize = 0;
    assert(s@.take(0).len() == 0);
    while i < s.len()
        invariant
            i <= s.len(),
            texts(out@) == used_externs(texts(old(out)@), s@.take(i as int)),
        decreases s.len() - i,
    {
        use_extern(out, &s[i]);
        proof {
            assert(s@.take(i + 1).drop_last() =~= s@.take(i as int));
            assert(s@.take(i + 1).last() == s@[i as int]);
        }
        i += 1;
    }
    assert(s@.take(s@.len() as int) =~= s@);
}

fn use_variants(out: &mut Vec<String>, s: &Vec<EnumVariant>)
    ensures
        texts(final(out)@) == used_variants(texts(old(out)@), s@),
{
    let mut i: usize = 0;
    assert(s@.take(0).len() == 0);
    while i < s.len()
        invariant
            i <= s.len(),
            texts(out@) == used_variants(texts(old(out)@), s@.take(i as int)),
        decreases s.len() - i,
    {
        use_variant(out, &s[i]);
        proof {
            assert(s@.take(i + 1).drop_last() =~= s@.take(i as int));
            assert(s@.take(i + 1).last() == s@[i as int]);
        }
        i += 1;
    }
    assert(s@.take(s@.len() as int) =~= s@);
}

fn use_enums(out: &mut Vec<String>, s: &Vec<EnumDecl>)
    ensures
        texts(final(out)@) == used_enums(texts(old(out)@), s@),
{
    let mut i: usize = 0;
    assert(s@.take(0).len() == 0);
    while i < s.len()
        invariant
            i <= s.len(),
            texts(out@) == used_enums(texts(old(out)@), s@.take(i as int)),
        decreases s.len() - i,
    {
        use_enum(out, &s[i]);
        proof {
            assert(s@.take(i + 1).drop_last() =~= s@.take(i as int));
            assert(s@.take(i + 1).last() == s@[i as int]);
        }
        i += 1;
    }
    assert(s@.take(s@.len() as int) =~= s@);
}

fn use_fields(out: &mut Vec<String>, s: &Vec<RecordField>)
    ensures
        texts(final(out)@) == used_fields(texts(old(out)@), s@),
{
    let mut i: usize = 0;
    assert(s@.take(0).len() == 0);
    while i < s.len()
        invariant
            i <= s.len(),
            texts(out@) == used_fields(texts(old(out)@), s@.take(i as int)),
        decreases s.len() - i,
    {
        use_field(out, &s[i]);
        proof {
            assert(s@.take(i + 1).drop_last() =~= s@.take(i as int));
            assert(s@.take(i + 1).last() == s@[i as int]);
        }
        i += 1;
    }
    assert(s@.take(s@.len() as int) =~= s@);
}

fn use_records(out: &mut Vec<String>, s: &Vec<RecordDecl>)
    ensures
        texts(final(out)@) == used_records(texts(old(out)@), s@),
{
    let mut i: usize = 0;
    assert(s@.take(0).len() == 0);
    while i < s.len()
        invariant
            i <= s.len(),
            texts(out@) == used_records(texts(old(out)@), s@.take(i as int)),
        decreases s.len() - i,
    {
        use_record(out, &s[i]);
        proof {
            assert(s@.take(i + 1).drop_last() =~= s@.take(i as int));
            assert(s@.take(i + 1).last() == s@[i as int]);
        }
        i += 1;
    }
    assert(s@.take(s@.len() as int) =~= s@);
}

fn use_methods(out: &mut Vec<String>, s: &Vec<TraitMethodSig>)
    ensures
        texts(final(out)@) == used_methods(texts(old(out)@), s@),
{
    let mut i: usize = 0;
    assert(s@.take(0).len() == 0);
    while i < s.len()
        invariant
            i <= s.len(),
            texts(out@) == used_methods(texts(old(out)@), s@.take(i as int)),
        decreases s.len() - i,
    {
        use_method(out, &s[i]);
        proof {
            assert(s@.take(i + 1).drop_last() =~= s@.take(i as int));
            assert(s@.take(i + 1).last() == s@[i as int]);
        }
        i += 1;
    }
    assert(s@.take(s@.len() as int) =~= s@);
}

fn use_traits(out: &mut Vec<String>, s: &Vec<TraitDecl>)
    ensures
        texts(final(out)@) == used_traits(texts(old(out)@), s@),
{
    let mut i: usize = 0;
    assert(s@.take(0).len() == 0);
    while i < s.len()
        invariant
            i <= s.len(),
            texts(out@) == used_traits(texts(old(out)@), s@.take(i as int)),
        decreases s.len() - i,
    {
        use_trait(out, &s[i]);
        proof {
            assert(s@.take(i + 1).drop_last() =~= s@.take(i as int));
            assert(s@.take(i + 1).last() == s@[i as int]);
        }
        i += 1;
    }
    assert(s@.take(s@.len() as int) =~= s@);
}

fn use_impls(out: &mut Vec<String>, s: &Vec<ImplDecl>)
    ensures
        texts(final(out)@) == used_impls(texts(old(out)@), s@),
{
    let mut i: usize = 0;
    assert(s@.take(0).len() == 0);
    while i < s.len()
        invariant
            i <= s.len(),
            texts(out@) == used_impls(texts(old(out)@), s@.take(i as int)),
        decreases s.len() - i,
    {
        use_impl(out, &s[i]);
        proof {
            assert(s@.take(i + 1).drop_last() =~= s@.take(i as int));
            assert(s@.take(i + 1).last() == s@[i as int]);
        }
        i += 1;
    }
    assert(s@.take(s@.len() as int) =~= s@);
}

fn find_used_names(p: &Program) -> (r: Vec<String>)
    ensures
        texts(r@) == used_names(*p),
{
    let mut out: Vec<String> = Vec::new();
    assert(texts(out@) =~= Seq::<Seq<char>>::empty());
    use_functions(&mut out, &p.functions);
    use_externs(&mut out, &p.externs);
    use_enums(&mut out, &p.enums);
    use_records(&mut out, &p.records);
    use_traits(&mut out, &p.traits);
    use_impls(&mut out, &p.impls);
    out
}

/// The name that an import brings in.
pub open spec fn imported(i: Import) -> Seq<char> {
    if i.path@.len() == 0 {
        Seq::empty()
    } else {
        i.path@.last()@
    }
}

/// Findings on imports whose name appears nowhere.
pub open spec fn unused_imports(out: Seq<Report>, s: Seq<Import>, used: Seq<Seq<char>>) -> Seq<Report>
    decreases s.len(),
{
    if s.len() == 0 {
        out
    } else {
        let before = unused_imports(out, s.drop_last(), used);
        let i = s.last();
        if used.contains(imported(i)) {
            before
        } else {
            before.push(
                finding(
                    "Unused import"@,
                    "imports/unused"@,
                    i.span@,
                    quoted(imported(i)) + " is imported but never used"@,
                    None,
                ),
            )
        }
    }
}

fn report_unused_imports(out: &mut Vec<Diagnostic>, s: &Vec<Import>, used: &Vec<String>)
    ensures
        reports(final(out)@) == unused_imports(reports(old(out)@), s@, texts(used@)),
{
    let mut i: usize = 0;
    assert(s@.take(0).len() == 0);
    while i < s.len()
        invariant
            i <= s.len(),
            reports(out@) == unused_imports(
                reports(old(out)@),
                s@.take(i as int),
                texts(used@),
            ),
        decreases s.len() - i,
    {
        let name = s[i].item_name();
        proof {
            assert(s@.take(i + 1).drop_last() =~= s@.take(i as int));
            assert(s@.take(i + 1).last() == s@[i as int]);
            assert(name@ == imported(s@[i as int]));
        }
        if !contains_name(used, name) {
            let mut message = quote(name);
            message.push_str(" is imported but never used");
            let d = Diagnostic::warning(
                owned("Unused import"),
                "imports/unused",
                s[i].span.copy(),
                message,
                None,
            );
            push_report(out, d);
        }
        i += 1;
    }
    assert(s@.take(s@.len() as int) =~= s@);
}

/// The names that one step of a walk reads, after `out`. The head of a dotted
/// path may be a local value, so every segment counts.
pub open spec fn read_step(out: Seq<Seq<char>>, s: Step) -> Seq<Seq<char>> {
    match s {
        Step::Expr(Expr::Var(name, _)) => out.push(name@),
        Step::Expr(Expr::Path { segments, .. }) => out + texts(segments@),
        _ => out,
    }
}

/// The names that a walk reads.
pub open spec fn read_steps(s: Seq<Step>) -> Seq<Seq<char>>
    decreases s.len(),
{
    if s.len() == 0 {
        Seq::empty()
    } else {
        read_step(read_steps(s.drop_last()), s.last())
    }
}

/// Whether a name is kept though nothing reads it: it begins with `_`.
pub open spec fn kept(name: Seq<char>) -> bool {
    name.len() > 0 && name[0] == '_'
}

/// A finding on a binding or a parameter that nothing reads.
pub open spec fn unread(out: Seq<Report>, name: Seq<char>, span: Extent, reads: Seq<Seq<char>>, title: Seq<char>, code: Seq<char>) -> Seq<
    Report,
> {
    if kept(name) || reads.contains(name) {
        out
    } else {
        out.push(
            finding(
                title,
                code,
                span,
                quoted(name) + " is never used"@,
                Some("Prefix the name with `_` to keep it intentionally."@),
            ),
        )
    }
}

/// Findings on parameters that nothing reads.
pub open spec fn unread_params(out: Seq<Report>, s: Seq<Param>, reads: Seq<Seq<char>>) -> Seq<Report>
    decreases s.len(),
{
    if s.len() == 0 {
        out
    } else {
        unread(
            unread_params(out, s.drop_last(), reads),
            s.last().name@,
            s.last().name_span@,
            reads,
            "Unused parameter"@,
            "bindings/unused-param"@,
        )
    }
}

/// Findings on bindings of a walk that nothing reads.
pub open spec fn unread_lets(out: Seq<Report>, s: Seq<Step>, reads: Seq<Seq<char>>) -> Seq<Report>
    decreases s.len(),
{
    if s.len() == 0 {
        out
    } else {
        let before = unread_lets(out, s.drop_last(), reads);
        match s.last() {
            Step::Item(BlockItem::Let { name, name_span, .. }) => unread(
                before,
                name@,
                name_span@,
                reads,
                "Unused binding"@,
                "bindings/unused-let"@,
            ),
            _ => before,
        }
    }
}

/// Findings on what a body binds and never reads. A binding counts as read where
/// its name is read anywhere in the body: a shadowed one may go unreported, but
/// one that is used is never flagged.
pub open spec fn unread_in(out: Seq<Report>, params: Seq<Param>, body: Block) -> Seq<Report> {
    let s = body_steps(body);
    let reads = read_steps(s);
    unread_lets(unread_params(out, params, reads), s, reads)
}

/// Whether a finding says of a name that nothing reads it.
pub open spec fn says_unread(d: Report, name: Seq<char>) -> bool {
    d.primary matches Some(m) && m.message == quoted(name) + " is never used"@
}

/// Whether every finding is one of `out`, or says of a name that is not among
/// `reads` and is not kept that nothing reads it.
pub open spec fn blames_unread(out: Seq<Report>, all: Seq<Report>, reads: Seq<Seq<char>>) -> bool {
    forall|i: int|
        0 <= i < all.len() ==> out.contains(#[trigger] all[i]) || exists|name: Seq<char>|
            !reads.contains(name) && !kept(name) && #[trigger] says_unread(all[i], name)
}

proof fn lemma_unread(out: Seq<Report>, now: Seq<Report>, name: Seq<char>, span: Extent, reads: Seq<Seq<char>>, title: Seq<char>, code: Seq<char>)
    requires
        blames_unread(out, now, reads),
    ensures
        blames_unread(out, unread(now, name, span, reads, title, code), reads),
{
    let all = unread(now, name, span, reads, title, code);
    assert forall|i: int| 0 <= i < all.len() implies out.contains(#[trigger] all[i])
        || exists|n: Seq<char>|
        !reads.contains(n) && !kept(n) && #[trigger] says_unread(all[i], n) by {
        if i < now.len() {
            assert(all[i] == now[i]);
        } else {
            assert(says_unread(all[i], name));
        }
    }
}

proof fn lemma_unread_params(out: Seq<Report>, s: Seq<Param>, reads: Seq<Seq<char>>)
    ensures
        blames_unread(out, unread_params(out, s, reads), reads),
    decreases s.len(),
{
    if s.len() > 0 {
        lemma_unread_params(out, s.drop_last(), reads);
        lemma_unread(
            out,
            unread_params(out, s.drop_last(), reads),
            s.last().name@,
            s.last().name_span@,
            reads,
            "Unused parameter"@,
            "bindings/unused-param"@,
        );
    }
}

proof fn lemma_unread_lets(out: Seq<Report>, first: Seq<Report>, s: Seq<Step>, reads: Seq<Seq<char>>)
    requires
        blames_unread(out, first, reads),
    ensures
        blames_unread(out, unread_lets(first, s, reads), reads),
    decreases s.len(),
{
    if s.len() > 0 {
        lemma_unread_lets(out, first, s.drop_last(), reads);
        if let Step::Item(BlockItem::Let { name, name_span, .. }) = s.last() {
            lemma_unread(
                out,
                unread_lets(first, s.drop_last(), reads),
                name@,
                name_span@,
                reads,
                "Unused binding"@,
                "bindings/unused-let"@,
            );
        }
    }
}

/// A binding or a parameter that is read anywhere in the body, or whose name
/// begins with `_`, is never flagged: what is flagged is neither.
pub proof fn what_is_read_is_never_flagged(out: Seq<Report>, params: Seq<Param>, body: Block)
    ensures
        blames_unread(out, unread_in(out, params, body), read_steps(body_steps(body))),
{
    let s = body_steps(body);
    let reads = read_steps(s);
    lemma_unread_params(out, params, reads);
    lemma_unread_lets(out, unread_params(out, params, reads), s, reads);
}

fn is_kept(name: &str) -> (r: bool)
    ensures
        r == kept(name@),
{
    let chars = crate::strings::chars_of(name);
    chars.len() > 0 && chars[0] == '_'
}

fn report_unread(out: &mut Vec<Diagnostic>, name: &str, span: &crate::source::Span, reads: &Vec<
    String,
>, title: &str, code: &str)
    ensures
        reports(final(out)@) == unread(
            reports(old(out)@),
            name@,
            span@,
            texts(reads@),
            title@,
            code@,
        ),
{
    if !is_kept(name) && !contains_name(reads, name) {
        let mut message = quote(name);
        message.push_str(" is never used");
        let d = Diagnostic::warning(
            owned(title),
            code,
            span.copy(),
            message,
            Some(owned("Prefix the name with `_` to keep it intentionally.")),
        );
        push_report(out, d);
    }
}

fn find_reads(all: &Vec<Visit<'_>>) -> (r: Vec<String>)
    ensures
        texts(r@) == read_steps(steps(all@)),
{
    let ghost s = steps(all@);
    let mut out: Vec<String> = Vec::new();
    let mut i: usize = 0;
    assert(s.len() == all@.len());
    assert(s.take(0).len() == 0);
    assert(texts(out@) =~= Seq::<Seq<char>>::empty());
    while i < all.len()
        invariant
            i <= all.len(),
            s == steps(all@),
            s.len() == all@.len(),
            texts(out@) == read_steps(s.take(i as int)),
        decreases all.len() - i,
    {
        proof {
            assert(s.take(i + 1).drop_last() =~= s.take(i as int));
            assert(s.take(i + 1).last() == all@[i as int]@);
        }
        if let Visit::Expr(e) = &all[i] {
            match e {
                Expr::Var(name, _) => push_name(&mut out, name.as_str()),
                Expr::Path { segments, .. } => push_names(&mut out, segments),
                _ => {},
            }
        }
        i += 1;
    }
    assert(s.take(s.len() as int) =~= s);
    out
}

fn report_params(out: &mut Vec<Diagnostic>, s: &Vec<Param>, reads: &Vec<String>)
    ensures
        reports(final(out)@) == unread_params(reports(old(out)@), s@, texts(reads@)),
{
    let mut i: usize = 0;
    assert(s@.take(0).len() == 0);
    while i < s.len()
        invariant
            i <= s.len(),
            reports(out@) == unread_params(
                reports(old(out)@),
                s@.take(i as int),
                texts(reads@),
            ),
        decreases s.len() - i,
    {
        report_unread(
            out,
            s[i].name.as_str(),
            &s[i].name_span,
            reads,
            "Unused parameter",
            "bindings/unused-param",
        );
        proof {
            assert(s@.take(i + 1).drop_last() =~= s@.take(i as int));
            assert(s@.take(i + 1).last() == s@[i as int]);
        }
        i += 1;
    }
    assert(s@.take(s@.len() as int) =~= s@);
}

fn report_body(out: &mut Vec<Diagnostic>, params: &Vec<Param>, body: &Block)
    ensures
        reports(final(out)@) == unread_in(reports(old(out)@), params@, *body),
{
    let all = visits(body);
    let reads = find_reads(&all);
    report_params(out, params, &reads);
    let ghost first = reports(out@);
    let ghost s = steps(all@);
    let mut i: usize = 0;
    assert(s.len() == all@.len());
    assert(s.take(0).len() == 0);
    while i < all.len()
        invariant
            i <= all.len(),
            s == steps(all@),
            s.len() == all@.len(),
            reports(out@) == unread_lets(first, s.take(i as int), texts(reads@)),
        decreases all.len() - i,
    {
        proof {
            assert(s.take(i + 1).drop_last() =~= s.take(i as int));
            assert(s.take(i + 1).last() == all@[i as int]@);
        }
        if let Visit::Item(item) = &all[i] {
            if let BlockItem::Let { name, name_span, .. } = item {
                report_unread(
                    out,
                    name.as_str(),
                    name_span,
                    &reads,
                    "Unused binding",
                    "bindings/unused-let",
                );
            }
        }
        i += 1;
    }
    assert(s.take(s.len() as int) =~= s);
}

/// Findings on what a function binds and never reads.
pub open spec fn unread_function(out: Seq<Report>, f: Function) -> Seq<Report> {
    unread_in(out, f.params@, f.body)
}

/// Findings on what a method of an impl binds and never reads. The trait fixes
/// its parameters, so they are not the author's choice.
pub open spec fn unread_method(out: Seq<Report>, f: Function) -> Seq<Report> {
    unread_in(out, Seq::empty(), f.body)
}

/// Findings on what a default body binds and never reads.
pub open spec fn unread_default(out: Seq<Report>, m: TraitMethodSig) -> Seq<Report> {
    match m.default_body {
        Some(body) => unread_in(out, Seq::empty(), body),
        None => out,
    }
}

/// Findings on what a trait binds and never reads.
pub open spec fn unread_trait(out: Seq<Report>, d: TraitDecl) -> Seq<Report> {
    unread_defaults(out, d.methods@)
}

/// Findings on what an impl binds and never reads.
pub open spec fn unread_impl(out: Seq<Report>, d: ImplDecl) -> Seq<Report> {
    unread_methods(out, d.methods@)
}

/// Findings on what functions bind and never read.
pub open spec fn unread_functions(out: Seq<Report>, s: Seq<Function>) -> Seq<Report>
    decreases s.len(),
{
    if s.len() == 0 {
        out
    } else {
        unread_function(unread_functions(out, s.drop_last()), s.last())
    }
}

/// Findings on what methods of an impl bind and never read.
pub open spec fn unread_methods(out: Seq<Report>, s: Seq<Function>) -> Seq<Report>
    decreases s.len(),
{
    if s.len() == 0 {
        out
    } else {
        unread_method(unread_methods(out, s.drop_last()), s.last())
    }
}

/// Findings on what default bodies bind and never read.
pub open spec fn unread_defaults(out: Seq<Report>, s: Seq<TraitMethodSig>) -> Seq<Report>
    decreases s.len(),
{
    if s.len() == 0 {
        out
    } else {
        unread_default(unread_defaults(out, s.drop_last()), s.last())
    }
}

/// Findings on what traits bind and never read.
pub open spec fn unread_traits(out: Seq<Report>, s: Seq<TraitDecl>) -> Seq<Report>
    decreases s.len(),
{
    if s.len() == 0 {
        out
    } else {
        unread_trait(unread_traits(out, s.drop_last()), s.last())
    }
}

/// Findings on what impls bind and never read.
pub open spec fn unread_impls(out: Seq<Report>, s: Seq<ImplDecl>) -> Seq<Report>
    decreases s.len(),
{
    if s.len() == 0 {
        out
    } else {
        unread_impl(unread_impls(out, s.drop_last()), s.last())
    }
}

/// Findings on what a program binds and never reads.
pub open spec fn unused_bindings(out: Seq<Report>, p: Program) -> Seq<Report> {
    unread_impls(
        unread_traits(unread_functions(out, p.functions@), p.traits@),
        p.impls@,
    )
}

fn report_function(out: &mut Vec<Diagnostic>, f: &Function)
    ensures
        reports(final(out)@) == unread_function(reports(old(out)@), *f),
{
    report_body(out, &f.params, &f.body);
}

fn report_method(out: &mut Vec<Diagnostic>, f: &Function)
    ensures
        reports(final(out)@) == unread_method(reports(old(out)@), *f),
{
    let none: Vec<Param> = Vec::new();
    assert(none@ =~= Seq::<Param>::empty());
    report_body(out, &none, &f.body);
}

fn report_default(out: &mut Vec<Diagnostic>, m: &TraitMethodSig)
    ensures
        reports(final(out)@) == unread_default(reports(old(out)@), *m),
{
    if let Some(body) = &m.default_body {
        let none: Vec<Param> = Vec::new();
        assert(none@ =~= Seq::<Param>::empty());
        report_body(out, &none, body);
    }
}

fn report_trait(out: &mut Vec<Diagnostic>, d: &TraitDecl)
    ensures
        reports(final(out)@) == unread_trait(reports(old(out)@), *d),
{
    report_defaults(out, &d.methods);
}

fn report_impl(out: &mut Vec<Diagnostic>, d: &ImplDecl)
    ensures
        reports(final(out)@) == unread_impl(reports(old(out)@), *d),
{
    report_methods(out, &d.methods);
}

fn report_functions(out: &mut Vec<Diagnostic>, s: &Vec<Function>)
    ensures
        reports(final(out)@) == unread_functions(reports(old(out)@), s@),
{
    let mut i: usize = 0;
    assert(s@.take(0).len() == 0);
    while i < s.len()
        invariant
            i <= s.len(),
            reports(out@) == unread_functions(reports(old(out)@), s@.take(i as int)),
        decreases s.len() - i,
    {
        report_function(out, &s[i]);
        proof {
            assert(s@.take(i + 1).drop_last() =~= s@.take(i as int));
            assert(s@.take(i + 1).last() == s@[i as int]);
        }
        i += 1;
    }
    assert(s@.take(s@.len() as int) =~= s@);
}

fn report_methods(out: &mut Vec<Diagnostic>, s: &Vec<Function>)
    ensures
        reports(final(out)@) == unread_methods(reports(old(out)@), s@),
{
    let mut i: usize = 0;
    assert(s@.take(0).len() == 0);
    while i < s.len()
        invariant
            i <= s.len(),
            reports(out@) == unread_methods(reports(old(out)@), s@.take(i as int)),
        decreases s.len() - i,
    {
        report_method(out, &s[i]);
        proof {
            assert(s@.take(i + 1).drop_last() =~= s@.take(i as int));
            assert(s@.take(i + 1).last() == s@[i as int]);
        }
        i += 1;
    }
    assert(s@.take(s@.len() as int) =~= s@);
}

fn report_defaults(out: &mut Vec<Diagnostic>, s: &Vec<TraitMethodSig>)
    ensures
        reports(final(out)@) == unread_defaults(reports(old(out)@), s@),
{
    let mut i: usize = 0;
    assert(s@.take(0).len() == 0);
    while i < s.len()
        invariant
            i <= s.len(),
            reports(out@) == unread_defaults(reports(old(out)@), s@.take(i as int)),
        decreases s.len() - i,
    {
        report_default(out, &s[i]);
        proof {
            assert(s@.take(i + 1).drop_last() =~= s@.take(i as int));
            assert(s@.take(i + 1).last() == s@[i as int]);
        }
        i += 1;
    }
    assert(s@.take(s@.len() as int) =~= s@);
}

fn report_traits(out: &mut Vec<Diagnostic>, s: &Vec<TraitDecl>)
    ensures
        reports(final(out)@) == unread_traits(reports(old(out)@), s@),
{
    let mut i: usize = 0;
    assert(s@.take(0).len() == 0);
    while i < s.len()
        invariant
            i <= s.len(),
            reports(out@) == unread_traits(reports(old(out)@), s@.take(i as int)),
        decreases s.len() - i,
    {
        report_trait(out, &s[i]);
        proof {
            assert(s@.take(i + 1).drop_last() =~= s@.take(i as int));
            assert(s@.take(i + 1).last() == s@[i as int]);
        }
        i += 1;
    }
    assert(s@.take(s@.len() as int) =~= s@);
}

fn report_impls(out: &mut Vec<Diagnostic>, s: &Vec<ImplDecl>)
    ensures
        reports(final(out)@) == unread_impls(reports(old(out)@), s@),
{
    let mut i: usize = 0;
    assert(s@.take(0).len() == 0);
    while i < s.len()
        invariant
            i <= s.len(),
            reports(out@) == unread_impls(reports(old(out)@), s@.take(i as int)),
        decreases s.len() - i,
    {
        report_impl(out, &s[i]);
        proof {
            assert(s@.take(i + 1).drop_last() =~= s@.take(i as int));
            assert(s@.take(i + 1).last() == s@[i as int]);
        }
        i += 1;
    }
    assert(s@.take(s@.len() as int) =~= s@);
}

/// The declared effects that a body does not use.
pub open spec fn unneeded(declared: Seq<Seq<char>>, body: Seq<Seq<char>>) -> Seq<Seq<char>>
    decreases declared.len(),
{
    if declared.len() == 0 {
        Seq::empty()
    } else {
        let before = unneeded(declared.drop_last(), body);
        if body.contains(declared.last()) {
            before
        } else {
            before.push(declared.last())
        }
    }
}

/// Names in quotes, separated by commas.
pub open spec fn quoted_list(s: Seq<Seq<char>>) -> Seq<char>
    decreases s.len(),
{
    if s.len() == 0 {
        Seq::empty()
    } else if s.len() == 1 {
        quoted(s[0])
    } else {
        quoted_list(s.drop_last()) + ", "@ + quoted(s.last())
    }
}

/// A finding on a function of the file `label` that declares effects which its
/// body does not use.
pub open spec fn over_declared(out: Seq<Report>, f: Function, t: TypedFunction, label: Seq<char>) -> Seq<
    Report,
> {
    let rest = unneeded(t.effects@, t.body_effects@);
    if f.name_span@.label != label || rest.len() == 0 {
        out
    } else {
        out.push(
            finding(
                "Over-declared effects"@,
                "effects/over-declared"@,
                f.name_span@,
                quoted(f.name@) + " declares "@ + quoted_list(rest)
                    + " in `uses { ... }`, but its body does not use "@ + if rest.len() == 1 {
                    "it"@
                } else {
                    "them"@
                },
                Some("Remove the unused effect names from `uses { ... }`."@),
            ),
        )
    }
}

/// Findings on the first `n` functions.
pub open spec fn over_declared_effects(out: Seq<Report>, s: Seq<Function>, t: Seq<TypedFunction>, label: Seq<char>, n: nat) -> Seq<
    Report,
>
    decreases n,
{
    if n == 0 {
        out
    } else {
        over_declared(
            over_declared_effects(out, s, t, label, (n - 1) as nat),
            s[n - 1],
            t[n - 1],
            label,
        )
    }
}

fn find_unneeded(declared: &Vec<String>, body: &Vec<String>) -> (r: Vec<String>)
    ensures
        texts(r@) == unneeded(texts(declared@), texts(body@)),
{
    let ghost all = texts(declared@);
    let mut out: Vec<String> = Vec::new();
    let mut i: usize = 0;
    assert(all.len() == declared@.len());
    assert(all.take(0).len() == 0);
    assert(texts(out@) =~= Seq::<Seq<char>>::empty());
    while i < declared.len()
        invariant
            i <= declared.len(),
            all == texts(declared@),
            all.len() == declared@.len(),
            texts(out@) == unneeded(all.take(i as int), texts(body@)),
        decreases declared.len() - i,
    {
        proof {
            assert(all.take(i + 1).drop_last() =~= all.take(i as int));
            assert(all.take(i + 1).last() == declared@[i as int]@);
        }
        if !contains_name(body, declared[i].as_str()) {
            push_name(&mut out, declared[i].as_str());
        }
        i += 1;
    }
    assert(all.take(all.len() as int) =~= all);
    out
}

fn push_quoted_list(out: &mut String, s: &Vec<String>)
    ensures
        final(out)@ == old(out)@ + quoted_list(texts(s@)),
{
    let ghost all = texts(s@);
    let ghost first = out@;
    let mut i: usize = 0;
    assert(all.len() == s@.len());
    assert(first + quoted_list(all.take(0)) =~= first);
    while i < s.len()
        invariant
            i <= s.len(),
            all == texts(s@),
            all.len() == s@.len(),
            out@ == first + quoted_list(all.take(i as int)),
        decreases s.len() - i,
    {
        let ghost before = out@;
        let name = quote(s[i].as_str());
        if i > 0 {
            out.push_str(", ");
        }
        out.push_str(name.as_str());
        proof {
            let next = all.take(i + 1);
            assert(next.drop_last() =~= all.take(i as int));
            assert(next.last() == s@[i as int]@);
            assert(out@ =~= first + quoted_list(next));
        }
        i += 1;
    }
    assert(all.take(all.len() as int) =~= all);
}

fn report_over_declared(out: &mut Vec<Diagnostic>, f: &Function, t: &TypedFunction, label: &str)
    ensures
        reports(final(out)@) == over_declared(reports(old(out)@), *f, *t, label@),
{
    if !crate::strings::same(f.name_span.file.label.as_str(), label) {
        return;
    }
    let rest = find_unneeded(&t.effects.effects, &t.body_effects.effects);
    assert(texts(rest@).len() == rest@.len());
    if rest.len() == 0 {
        return;
    }
    let mut message = quote(f.name.as_str());
    message.push_str(" declares ");
    push_quoted_list(&mut message, &rest);
    message.push_str(" in `uses { ... }`, but its body does not use ");
    if rest.len() == 1 {
        message.push_str("it");
    } else {
        message.push_str("them");
    }
    let d = Diagnostic::warning(
        owned("Over-declared effects"),
        "effects/over-declared",
        f.name_span.copy(),
        message,
        Some(owned("Remove the unused effect names from `uses { ... }`.")),
    );
    push_report(out, d);
}

/// Where a finding begins.
pub open spec fn start_of(d: Report) -> nat {
    match d.primary {
        Some(m) => m.span.start,
        None => 0,
    }
}

/// Where among the first `n` sorted findings the finding `d` goes: behind all
/// that do not begin after it.
pub open spec fn slot(s: Seq<Report>, d: Report, n: nat) -> nat
    decreases n,
{
    if n > 0 && start_of(d) < start_of(s[n - 1]) {
        slot(s, d, (n - 1) as nat)
    } else {
        n
    }
}

/// Findings in source order. Those that begin at one place stay in their order.
pub open spec fn in_order(s: Seq<Report>) -> Seq<Report>
    decreases s.len(),
{
    if s.len() == 0 {
        Seq::empty()
    } else {
        let rest = in_order(s.drop_last());
        rest.insert(slot(rest, s.last(), rest.len()) as int, s.last())
    }
}

proof fn lemma_slot(s: Seq<Report>, d: Report, n: nat)
    requires
        n <= s.len(),
        forall|i: int, j: int| 0 <= i < j < s.len() ==> start_of(#[trigger] s[i]) <= start_of(
            #[trigger] s[j],
        ),
    ensures
        slot(s, d, n) <= n,
        forall|i: int| slot(s, d, n) <= i < n ==> start_of(d) < start_of(#[trigger] s[i]),
        forall|i: int| 0 <= i < slot(s, d, n) ==> start_of(#[trigger] s[i]) <= start_of(d),
    decreases n,
{
    if n > 0 && start_of(d) < start_of(s[n - 1]) {
        lemma_slot(s, d, (n - 1) as nat);
    }
}

/// Findings are shown in source order, and each of them exactly as often as it
/// was found.
pub proof fn findings_are_in_source_order(s: Seq<Report>)
    ensures
        forall|i: int, j: int|
            0 <= i < j < in_order(s).len() ==> start_of(#[trigger] in_order(s)[i]) <= start_of(
                #[trigger] in_order(s)[j],
            ),
        in_order(s).to_multiset() =~= s.to_multiset(),
    decreases s.len(),
{
    broadcast use vstd::seq_lib::group_to_multiset_ensures;

    if s.len() > 0 {
        findings_are_in_source_order(s.drop_last());
        let rest = in_order(s.drop_last());
        let d = s.last();
        lemma_slot(rest, d, rest.len());
        let k = slot(rest, d, rest.len()) as int;
        let all = rest.insert(k, d);
        assert forall|i: int, j: int| 0 <= i < j < all.len() implies start_of(#[trigger] all[i])
            <= start_of(#[trigger] all[j]) by {
            let a = if i < k {
                i
            } else {
                i - 1
            };
            let b = if j < k {
                j
            } else {
                j - 1
            };
            assert(i != k ==> all[i] == rest[a]);
            assert(j != k ==> all[j] == rest[b]);
        }
        assert(s =~= s.drop_last().push(d));
    }
}

fn begins_at(d: &Diagnostic) -> (r: usize)
    ensures
        r == start_of(d@),
{
    match &d.primary {
        Some(l) => l.span.start,
        None => 0,
    }
}

fn sort_findings(s: Vec<Diagnostic>) -> (r: Vec<Diagnostic>)
    ensures
        reports(r@) == in_order(reports(s@)),
{
    let ghost source = s@;
    let ghost all = reports(s@);
    let mut out: Vec<Diagnostic> = Vec::new();
    assert(reports(out@) =~= in_order(all.take(0)));
    for d in iter: s
        invariant
            iter.seq() == source,
            all == reports(source),
            reports(out@) == in_order(all.take(iter.index())),
    {
        let ghost i = iter.index();
        let ghost rest = reports(out@);
        let start: usize = begins_at(&d);
        let mut n: usize = out.len();
        while n > 0 && start < begins_at(&out[n - 1])
            invariant
                n <= out.len(),
                rest == reports(out@),
                start == start_of(d@),
                slot(rest, d@, rest.len()) == slot(rest, d@, n as nat),
            decreases n,
        {
            assert(rest[n - 1] == out@[n - 1]@);
            n -= 1;
        }
        proof {
            if n > 0 {
                assert(rest[n - 1] == out@[n - 1]@);
            }
        }
        out.insert(n, d);
        proof {
            assert(all.take(i + 1).drop_last() =~= all.take(i));
            assert(all.take(i + 1).last() == d@);
            assert(rest.len() == out@.len() - 1);
            assert(reports(out@) =~= rest.insert(n as int, d@));
        }
    }
    assert(all.take(all.len() as int) =~= all);
    out
}

/// The findings on a file: `root` is its own syntax tree, `merged` the program
/// with its imports and the prelude, `typed` what the type checker found out.
pub open spec fn findings(root: Program, merged: Program, typed: TypedProgram, label: Seq<char>) -> Seq<
    Report,
> {
    in_order(
        over_declared_effects(
            unused_bindings(
                unused_imports(naming(Seq::empty(), root), root.imports@, used_names(root)),
                root,
            ),
            merged.functions@,
            typed.functions@,
            label,
            shorter(merged.functions@.len(), typed.functions@.len()),
        ),
    )
}

/// Lints a file: `root` is its own syntax tree, `merged` the program with its
/// imports and the prelude, `typed` what the type checker found out.
pub fn lint(root: &Program, merged: &Program, typed: &TypedProgram, label: &str) -> (r: Vec<
    Diagnostic,
>)
    ensures
        reports(r@) == findings(*root, *merged, *typed, label@),
{
    let mut out: Vec<Diagnostic> = Vec::new();
    assert(reports(out@) =~= Seq::<Report>::empty());
    name_functions(&mut out, &root.functions);
    name_externs(&mut out, &root.externs);
    name_enums(&mut out, &root.enums);
    name_traits(&mut out, &root.traits);
    name_impls(&mut out, &root.impls);
    let used = find_used_names(root);
    report_unused_imports(&mut out, &root.imports, &used);
    report_functions(&mut out, &root.functions);
    report_traits(&mut out, &root.traits);
    report_impls(&mut out, &root.impls);
    let ghost first = reports(out@);
    let mut i: usize = 0;
    while i < merged.functions.len() && i < typed.functions.len()
        invariant
            i <= merged.functions.len(),
            i <= typed.functions.len(),
            reports(out@) == over_declared_effects(
                first,
                merged.functions@,
                typed.functions@,
                label@,
                i as nat,
            ),
        decreases merged.functions.len() - i,
    {
        report_over_declared(&mut out, &merged.functions[i], &typed.functions[i], label);
        i += 1;
    }
    assert(i as nat == shorter(merged.functions@.len(), typed.functions@.len()));
    sort_findings(out)
}

/// How a run over files ends: with an error where a file could not be linted or
/// there was a finding.
pub open spec fn ending(failed: usize, found: usize) -> Option<Problem> {
    if failed > 0 {
        Some(plain(decimal(failed as nat) + " file(s) failed to lint"@))
    } else if found > 0 {
        Some(
            plain(
                decimal(found as nat) + " warning"@ + if found == 1 {
                    ""@
                } else {
                    "s"@
                } + " emitted"@,
            ),
        )
    } else {
        None
    }
}

/// How a run over files ends, of which `failed` could not be linted and on which
/// there were `found` findings.
pub fn conclude(failed: usize, found: usize) -> (r: Result<(), Error>)
    ensures
        match r {
            Ok(_) => ending(failed, found) is None,
            Err(e) => ending(failed, found) == Some(e@),
        },
{
    if failed > 0 {
        let mut message = String::new();
        push_decimal(&mut message, failed as u64);
        message.push_str(" file(s) failed to lint");
        assert(message@ =~= decimal(failed as nat) + " file(s) failed to lint"@);
        return Err(Error::new(message));
    }
    if found > 0 {
        let mut message = String::new();
        push_decimal(&mut message, found as u64);
        message.push_str(" warning");
        if found != 1 {
            message.push_str("s");
        } else {
            message.push_str("");
        }
        message.push_str(" emitted");
        assert(message@ =~= decimal(found as nat) + " warning"@ + (if found == 1 {
            ""@
        } else {
            "s"@
        }) + " emitted"@);
        return Err(Error::new(message));
    }
    Ok(())
}

} // verus!
