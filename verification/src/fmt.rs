//! The canonical formatter: one style, zero configuration.
//!
//! The formatter works on the token stream (plus the comments), not on the
//! syntax tree: the tree desugars `&& || !` into `if` and drops redundant
//! parentheses, so it cannot reproduce the source. The tree is still used
//! twice: to tell a comparison `<` or `>` apart from a generic angle bracket,
//! and to verify that the formatted output parses to the identical program
//! before anything is written.

use vstd::prelude::*;

use crate::ast::{span_of, Expr, Program};
use crate::ast_walk::{program_steps, steps, visit_program, Step, Visit};
use crate::error::{plain, problem_text, problems, Error};
use crate::lexer::{lex_with_comments, lexed, tokens_of};
use crate::source::SourceText;
use crate::strings::{decimal, owned, push_decimal, same};
use crate::types::BinaryOp;

use airy::has_single_gaps;
use attributes::{normalize_attributes, normalized};
use dump::{ast_dump, dump};
use gaps::filled_lines;
use keep::{in_lines, times};
use print::{program_text, render_program};
use stand::{comments_come_first, remark_texts, stands};
use tree::{build, built, lines, merge, merge_rest, ItemT, LineT};

pub mod airy;
pub mod attributes;
pub mod dump;
pub mod gaps;
pub mod keep;
pub mod laid;
pub mod lines;
pub mod print;
pub mod stand;
pub mod texts;
pub mod tree;

verus! {

/// An operator that is written like a generic bracket.
pub open spec fn is_angle_op(op: BinaryOp) -> bool {
    op is Lt || op is Gt || op is Shl || op is Shr || op is UShr
}

/// Where the operators that are written like generic brackets stand: for each,
/// the bytes between its operands.
pub open spec fn operator_ranges(s: Seq<Step>) -> Seq<(usize, usize)>
    decreases s.len(),
{
    if s.len() == 0 {
        Seq::empty()
    } else {
        let before = operator_ranges(s.drop_last());
        match s.last() {
            Step::Expr(Expr::Binary { op, left, right, .. }) => if is_angle_op(op) {
                before.push((span_of(*left).end, span_of(*right).start))
            } else {
                before
            },
            _ => before,
        }
    }
}

/// Where the operators of a program that are written like generic brackets
/// stand. Every `<` or `>` outside these ranges is a generic bracket. The
/// desugaring of `&& || !` keeps the comparisons intact, so the ranges survive
/// it.
pub fn comparison_ranges(program: &Program) -> (r: Vec<(usize, usize)>)
    ensures
        r@ == operator_ranges(program_steps(*program)),
{
    let visits = visit_program(program);
    let ghost all = steps(visits@);
    let mut out: Vec<(usize, usize)> = Vec::new();
    let mut i: usize = 0;
    assert(all.take(0).len() == 0);
    while i < visits.len()
        invariant
            i <= visits.len(),
            all == steps(visits@),
            out@ == operator_ranges(all.take(i as int)),
        decreases visits.len() - i,
    {
        proof {
            assert(all.take(i + 1).drop_last() =~= all.take(i as int));
            assert(all.take(i + 1).last() == visits@[i as int]@);
        }
        if let Visit::Expr(Expr::Binary { op, left, right, .. }) = &visits[i] {
            if matches!(
                op,
                BinaryOp::Lt | BinaryOp::Gt | BinaryOp::Shl | BinaryOp::Shr | BinaryOp::UShr
            ) {
                out.push((left.span().end, right.span().start));
            }
        }
        i += 1;
    }
    assert(all.take(all.len() as int) =~= all);
    out
}

/// The tokens and comments of a source text that parses to `program`, by where they
/// start.
pub open spec fn merged(label: Seq<char>, source: Seq<char>, program: Program) -> Seq<ItemT> {
    merge_rest(
        Seq::empty(),
        source,
        operator_ranges(program_steps(program)),
        tokens_of(label, source),
        lexed(label, source).comments,
        0,
        0,
    )
}

/// The lines of a source text that parses to `program`.
pub open spec fn shaped(label: Seq<char>, source: Seq<char>, program: Program) -> Seq<LineT> {
    normalized(built(source, merged(label, source, program)))
}

/// The canonical form of a source text that parses to `program`.
pub open spec fn formatted(label: Seq<char>, source: Seq<char>, program: Program) -> Seq<char> {
    program_text(shaped(label, source, program))
}

fn first(errors: Vec<Error>) -> (r: Option<Error>)
    ensures
        match r {
            Some(e) => problems(errors@).len() > 0 && e@ == problems(errors@)[0],
            None => problems(errors@).len() == 0,
        },
{
    let ghost all = problems(errors@);
    let mut errors = errors;
    if errors.len() > 0 {
        assert(all[0] == errors@[0]@);
        Some(errors.remove(0))
    } else {
        None
    }
}

/// Formats one source file to its canonical form. `program` and `errors` are
/// what the file parses to: formatting requires a clean parse, not that the
/// file resolves imports or type-checks. The first error is surfaced.
pub fn format_source(label: &str, source: &str, program: &Program, errors: Vec<Error>) -> (r: Result<
    String,
    Error,
>)
    ensures
        match r {
            Ok(text) => {
                &&& problems(errors@).len() == 0
                &&& lexed(label@, source@).errors.len() == 0
                &&& text@ == formatted(label@, source@, *program)
            },
            Err(e) => if problems(errors@).len() > 0 {
                e@ == problems(errors@)[0]
            } else {
                &&& lexed(label@, source@).errors.len() > 0
                &&& e@ == lexed(label@, source@).errors[0]
            },
        },
{
    if let Some(error) = first(errors) {
        return Err(error);
    }
    match lex_with_comments(label, source) {
        Ok((tokens, comments)) => {
            let ranges = comparison_ranges(program);
            let text = SourceText::new(source);
            let items = merge(&text, &ranges, &tokens, &comments);
            let shaped = normalize_attributes(build(&text, items));
            Ok(render_program(&shaped))
        },
        Err(error) => Err(error),
    }
}

/// The message for output that does not parse.
pub open spec fn unparsable_message(label: Seq<char>, error: Seq<char>) -> Seq<char> {
    "internal: emela fmt produced unparsable output for "@ + label
        + "; the file was left unchanged\n\n"@ + error
}

/// The message for output that parses to another program.
pub open spec fn changed_message(label: Seq<char>) -> Seq<char> {
    "internal: emela fmt would change the meaning of "@ + label
        + "; the file was left unchanged"@
}

/// Accepts formatted output that parses to the identical program. `reparsed`
/// and `errors` are what the output parses to.
pub fn confirm_format(
    label: &str,
    output: String,
    program: &Program,
    reparsed: &Program,
    errors: Vec<Error>,
) -> (r: Result<String, Error>)
    ensures
        match r {
            Ok(text) => {
                &&& problems(errors@).len() == 0
                &&& dump(*reparsed) == dump(*program)
                &&& text@ == output@
            },
            Err(e) => if problems(errors@).len() > 0 {
                e@ == plain(unparsable_message(label@, problem_text(problems(errors@)[0])))
            } else {
                dump(*reparsed) != dump(*program) && e@ == plain(changed_message(label@))
            },
        },
{
    if let Some(error) = first(errors) {
        let mut message = owned("internal: emela fmt produced unparsable output for ");
        message.push_str(label);
        message.push_str("; the file was left unchanged\n\n");
        let shown = error.render();
        message.push_str(shown.as_str());
        return Err(Error::new(message));
    }
    let was = ast_dump(program);
    let is = ast_dump(reparsed);
    if !same(is.as_str(), was.as_str()) {
        let mut message = owned("internal: emela fmt would change the meaning of ");
        message.push_str(label);
        message.push_str("; the file was left unchanged");
        return Err(Error::new(message));
    }
    Ok(output)
}

/// The result of a run over files, `failed` of which could not be read,
/// formatted or written, and `changed` of which were not in canonical form. With
/// `check`, those are an error too.
pub fn conclude(failed: u64, changed: u64, check: bool) -> (r: Result<(), Error>)
    ensures
        match r {
            Ok(()) => failed == 0 && !(check && changed > 0),
            Err(e) => if failed > 0 {
                e@ == plain(decimal(failed as nat) + " file(s) could not be formatted"@)
            } else {
                &&& check && changed > 0
                &&& e@ == plain(decimal(changed as nat) + " file(s) need formatting"@)
            },
        },
{
    let mut message = String::new();
    assert(message@ =~= Seq::<char>::empty());
    if failed > 0 {
        push_decimal(&mut message, failed);
        assert(message@ =~= decimal(failed as nat));
        message.push_str(" file(s) could not be formatted");
        return Err(Error::new(message));
    }
    if check && changed > 0 {
        push_decimal(&mut message, changed);
        assert(message@ =~= decimal(changed as nat));
        message.push_str(" file(s) need formatting");
        return Err(Error::new(message));
    }
    Ok(())
}

/// The canonical form of a file is empty or ends with exactly one newline.
pub proof fn formatted_text_ends_once(label: Seq<char>, source: Seq<char>, program: Program)
    ensures
        ({
            let text = formatted(label, source, program);
            text.len() == 0 || (text.last() == '\n' && text.len() >= 2 && text[text.len() - 2]
                != '\n')
        }),
{
    lines::cleaned_text_ends_once(print::program_lines(shaped(label, source, program)));
}

/// The canonical form of a file never begins with a blank line, and never has two
/// of them in a row. No line of the file may be a lone comma: the separator is
/// not written, so such a line stays behind as an empty one.
pub proof fn formatted_text_has_single_gaps(label: Seq<char>, source: Seq<char>, program: Program)
    requires
        lexed(label, source).errors.len() == 0,
        filled_lines(shaped(label, source, program)),
    ensures
        has_single_gaps(formatted(label, source, program)),
{
    texts::lexed_items_are_sound(label, source, operator_ranges(program_steps(program)));
    gaps::built_lines_are_sound(source, merged(label, source, program));
    gaps::filled_lines_are_sound(shaped(label, source, program));
    airy::written_programs_have_single_gaps(shaped(label, source, program));
}

/// Every comment of a file is in its lines exactly as often as in its source, and
/// stands in the canonical form at least as often: its text can also be part of
/// another comment, or of a string. No comment may stand after a `}` that closes
/// nothing, since the file ends there.
pub proof fn formatted_text_keeps_comments(
    label: Seq<char>,
    source: Seq<char>,
    program: Program,
    x: Seq<char>,
)
    requires
        lexed(label, source).errors.len() == 0,
        comments_come_first(source, merged(label, source, program)),
    ensures
        ({
            let n = times(remark_texts(source, lexed(label, source).comments), x);
            &&& in_lines(shaped(label, source, program), x) == n
            &&& stands(formatted(label, source, program), x) >= n
        }),
{
    texts::lexed_comments_are_remarks(label, source);
    let tokens = tokens_of(label, source);
    assert forall|n: int| 0 <= n < tokens.len() - 1 implies !((#[trigger] tokens[n]).kind is Eof) by {
        assert(tokens[n] == lexed(label, source).tokens[n]);
    }
    stand::merged_comments_stand(
        source,
        operator_ranges(program_steps(program)),
        tokens,
        lexed(label, source).comments,
        shaped(label, source, program),
        x,
    );
}

/// Cleaning the canonical form changes nothing: it has no white space at the end of a
/// line, and ends with exactly one newline or is empty.
pub proof fn formatted_text_is_clean(label: Seq<char>, source: Seq<char>, program: Program)
    ensures
        lines::cleaned(formatted(label, source, program)) == formatted(label, source, program),
{
    lines::clean_texts_stay(print::program_lines(shaped(label, source, program)));
}

/// The canonical form of a source text is the tokens and comments of its lines in their
/// order, apart from commas, laid out by their kinds, and a line break at the end. On
/// one line no space stands before or behind a `.` or a `::`, none before `,` `:` `)`
/// `]` `?`, none behind `(` `[` `!` `~`, none around generic brackets but behind a closing
/// one, none between what is called and its arguments, and one between any two other
/// tokens.
pub proof fn formatted_text_is_laid_out_by_kinds(
    label: Seq<char>,
    source: Seq<char>,
    program: Program,
)
    requires
        laid::full_lines(shaped(label, source, program)),
        shaped(label, source, program).len() > 0,
    ensures
        exists|r: Seq<laid::Piece>|
            #![trigger laid::laid(r)]
            {
                &&& formatted(label, source, program) == laid::laid(r).push('\n')
                &&& laid::said(r) == laid::said_lines(shaped(label, source, program))
                &&& laid::well_laid(r)
            },
{
    laid::written_files_are_laid_out_by_their_kinds(shaped(label, source, program));
}

} // verus!
