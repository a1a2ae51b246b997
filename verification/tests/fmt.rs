//! The formatter on whole files.

use std::sync::Arc;

use emela::ast::{Block, BlockItem, Expr, Function, Program};
use emela::error::Error;
use emela::fmt::lines::clean;
use emela::fmt::{conclude, confirm_format, format_source as format_parsed};
use emela::source::{SourceFile, Span};
use emela::types::{BinaryOp, EffectRow, Type};

fn empty_program() -> Program {
    Program {
        module: None,
        imports: vec![],
        functions: vec![],
        externs: vec![],
        enums: vec![],
        records: vec![],
        traits: vec![],
        impls: vec![],
        effects: vec![],
    }
}

fn span(source: &str, start: usize, end: usize) -> Span {
    let file = Arc::new(SourceFile {
        label: "test.emel".to_string(),
        source: source.to_string(),
    });
    Span { file, start, end }
}

/// A program whose one body is `n < 3`, with its operands where they stand in
/// `source`.
fn comparison_program(source: &str) -> Program {
    let at = source.rfind('<').unwrap();
    let left_end = source[..at].trim_end().len();
    let right_start = source.rfind('3').unwrap();
    let name = Expr::Var("n".to_string(), span(source, left_end - 1, left_end));
    let three = Expr::Int(3, span(source, right_start, right_start + 1));
    let whole = span(source, left_end - 1, right_start + 1);
    let body = Block {
        items: vec![BlockItem::Expr(Expr::Binary {
            op: BinaryOp::Lt,
            left: Box::new(name),
            right: Box::new(three),
            span: whole.clone(),
        })],
        span: whole,
    };
    let mut program = empty_program();
    program.functions.push(Function {
        name: "f".to_string(),
        name_span: span(source, 3, 4),
        is_public: false,
        module_segments: vec![],
        declared_module: None,
        effect_name: None,
        type_params: vec![],
        bounds: vec![],
        params: vec![],
        ret: Type::Bool,
        throws: None,
        effects: EffectRow { effects: vec![] },
        body,
        is_test: false,
    });
    program
}

/// Parses the few shapes these tests need: an unbalanced source does not parse,
/// and only a comparison carries anything the formatter reads off the tree.
fn parse(source: &str) -> (Program, Vec<Error>) {
    if source.matches('{').count() != source.matches('}').count() {
        let error = Error::at("Unexpected token", span(source, 0, 1), "here".to_string());
        return (empty_program(), vec![error]);
    }
    if source.contains("n<3") || source.contains("n < 3") {
        return (comparison_program(source), vec![]);
    }
    (empty_program(), vec![])
}

fn format_source(label: &str, source: &str) -> Result<String, Error> {
    let (program, errors) = parse(source);
    let output = format_parsed(label, source, &program, errors)?;
    let (reparsed, errors) = parse(&output);
    confirm_format(label, output, &program, &reparsed, errors)
}

fn fmt(source: &str) -> String {
    format_source("test.emel", source).expect("format_source failed")
}

#[test]
fn normalizes_spacing_and_indentation() {
    let source = "fn add (x:Int,y:Int)->Int uses {} {\n  x+y\n}\n";
    assert_eq!(
        fmt(source),
        "fn add(x: Int, y: Int) -> Int uses {} {\n    x + y\n}\n"
    );
}

#[test]
fn idempotent() {
    let source = "fn add(x: Int, y: Int) -> Int {\n  x + y\n}\n\nfn main() -> Unit uses {} {\n  let s = add(1, 2)\n  ()\n}\n";
    let once = fmt(source);
    assert_eq!(fmt(&once), once);
}

#[test]
fn preserves_comments() {
    let source = "-- header\n\n-- about add\nfn add(x: Int, y: Int) -> Int {\n    x + y -- trailing\n}\n";
    let expected = "-- header\n\n-- about add\nfn add(x: Int, y: Int) -> Int {\n    x + y -- trailing\n}\n";
    assert_eq!(fmt(source), expected);
}

#[test]
fn collapses_blank_lines() {
    let source = "fn a() -> Int {\n\n\n    1\n\n}\n\n\n\nfn b() -> Int {\n    2\n}\n";
    let expected = "fn a() -> Int {\n    1\n}\n\nfn b() -> Int {\n    2\n}\n";
    assert_eq!(fmt(source), expected);
}

#[test]
fn comparison_vs_generics_spacing() {
    let source = "fn f(xs: Array<Int>, n: Int) -> Bool {\n    n<3\n}\n";
    let expected = "fn f(xs: Array<Int>, n: Int) -> Bool {\n    n < 3\n}\n";
    assert_eq!(fmt(source), expected);
}

#[test]
fn breaks_long_call_with_trailing_comma() {
    let source = "fn f(a: Int, b: Int) -> Int {\n    f(an_extremely_long_argument_name_number_one + 111111111, an_extremely_long_argument_name_number_two + 222222222)\n}\n";
    let expected = "fn f(a: Int, b: Int) -> Int {\n    f(\n        an_extremely_long_argument_name_number_one + 111111111,\n        an_extremely_long_argument_name_number_two + 222222222,\n    )\n}\n";
    assert_eq!(fmt(source), expected);
}

#[test]
fn joins_short_multiline_call() {
    let source =
        "fn add(x: Int, y: Int) -> Int {\n    add(\n        1,\n        2,\n    )\n}\n";
    let expected = "fn add(x: Int, y: Int) -> Int {\n    add(1, 2)\n}\n";
    assert_eq!(fmt(source), expected);
}

#[test]
fn keeps_multiline_blocks() {
    let source = "fn f() -> Int {\n    let x = 1\n    x\n}\n";
    assert_eq!(fmt(source), source);
}

#[test]
fn drops_redundant_separator_commas() {
    let source = "enum Color {\n    Red,\n    Blue,\n}\n";
    let expected = "enum Color {\n    Red\n    Blue\n}\n";
    assert_eq!(fmt(source), expected);
}

#[test]
fn preserves_string_and_float_literals() {
    let source = "fn f() -> Float {\n    let s = \"a\\nb\"\n    2.50\n}\n";
    assert_eq!(fmt(source), source);
}

#[test]
fn lambda_keeps_fn_space() {
    let source = "fn f() -> Int {\n    let g = fn (x: Int) -> Int { x * 2 }\n    g(3)\n}\n";
    assert_eq!(fmt(source), source);
}

#[test]
fn effect_row_spacing() {
    let source = "fn f() -> Unit uses {Stdout,Clock} {\n    ()\n}\n";
    let expected = "fn f() -> Unit uses { Stdout, Clock } {\n    ()\n}\n";
    assert_eq!(fmt(source), expected);
}

#[test]
fn preserves_redundant_parens() {
    let source = "fn f(a: Int, b: Int) -> Int {\n    (a + b) * 2\n}\n";
    assert_eq!(fmt(source), source);
}

#[test]
fn match_and_try_render() {
    let source = "enum E {\n    A\n    B\n}\n\nfn f(e: E) -> Int {\n    match e {\n        A -> 1\n        B -> 2\n    }\n}\n";
    assert_eq!(fmt(source), source);
}

#[test]
fn comment_in_arguments_forces_break() {
    let source = "fn f(a: Int) -> Int {\n    f(\n        -- the seed\n        1,\n    )\n}\n";
    assert_eq!(fmt(source), source);
}

#[test]
fn unparsable_source_is_an_error() {
    assert!(format_source("test.emel", "fn f( -> {").is_err());
}

#[test]
fn empty_file_stays_empty() {
    assert_eq!(fmt(""), "");
}

#[test]
fn splits_attributes_onto_their_own_lines() {
    let source = "@test fn a() -> Unit { () }\n\n@test\n\n@lang(\"option\") enum O { N }\n";
    let expected = "@test\nfn a() -> Unit { () }\n\n@test\n@lang(\"option\")\nenum O { N }\n";
    assert_eq!(fmt(source), expected);
}

#[test]
fn breaks_the_body_before_the_parameters() {
    let name = "a".repeat(40);
    let source = format!("fn f(x: Int) -> Int {{ {name} + {name} }}\n");
    let expected = format!("fn f(x: Int) -> Int {{\n    {name} + {name}\n}}\n");
    assert_eq!(fmt(&source), expected);
}

#[test]
fn comment_after_a_comma_stays_with_its_element() {
    let source = "fn f() -> Int {\n    f(\n        1, -- one\n        2,\n        -- end\n    )\n}\n";
    assert_eq!(fmt(source), source);
}

#[test]
fn trailing_white_space_is_dropped() {
    assert_eq!(fmt("-- a  \n\n\n\n-- b\t\n\n"), "-- a\n\n-- b\n");
}

#[test]
fn blank_lines_never_pile_up() {
    let sources = [
        "\n\n\nfn a() -> Int {\n    1\n}\n",
        "  \n\t\n-- a\n\n \n\n-- b\n\n\n\n",
        "fn a() -> Int {\n\n\n    let x = f(1,\n\n\n 2)\n\n\n\n    x\n\n\n}\n\n\n",
        "@test\n\n\nfn a() -> Int {\n    1\n}\n\n\n\n@a @b\n\nfn b() -> Char { '\n' }\n",
    ];
    for source in sources {
        let text = fmt(source);
        assert!(!text.starts_with('\n'), "{text:?}");
        assert!(!text.contains("\n\n\n"), "{text:?}");
    }
    assert_eq!(fmt(sources[1]), "-- a\n\n-- b\n");
}

#[test]
fn a_lex_error_is_surfaced() {
    let error = format_parsed("t.emel", "let s = \"abc\n", &empty_program(), vec![]).unwrap_err();
    assert!(error.render().contains("Unterminated string"));
}

#[test]
fn changed_meaning_is_refused() {
    let program = comparison_program("fn f() -> Bool { n < 3 }");
    let error = confirm_format("t.emel", "x".to_string(), &empty_program(), &program, vec![]).unwrap_err();
    assert_eq!(
        error.render(),
        "internal: emela fmt would change the meaning of t.emel; the file was left unchanged"
    );
}

#[test]
fn unparsable_output_is_refused() {
    let problem = Error::new("broken".to_string());
    let error =
        confirm_format("t.emel", "x".to_string(), &empty_program(), &empty_program(), vec![problem])
            .unwrap_err();
    assert_eq!(
        error.render(),
        "internal: emela fmt produced unparsable output for t.emel; the file was left unchanged\n\nbroken"
    );
}

#[test]
fn a_run_concludes_with_the_worst() {
    assert!(conclude(0, 0, true).is_ok());
    assert!(conclude(0, 2, false).is_ok());
    assert_eq!(conclude(0, 2, true).unwrap_err().render(), "2 file(s) need formatting");
    assert_eq!(conclude(3, 2, true).unwrap_err().render(), "3 file(s) could not be formatted");
}

#[test]
fn the_dump_tells_programs_apart() {
    let one = comparison_program("fn f() -> Bool { n < 3 }");
    let other = comparison_program("fn f() -> Bool {   n <    3 }");
    let text = emela::fmt::dump::ast_dump(&one);
    assert_eq!(text, emela::fmt::dump::ast_dump(&other));
    assert_eq!(
        text,
        "p\nmodule None\nfn f test=false pub=false path=[] module=None effect=None tparams=[] \
         bounds=[] params=[] ret=Bool throws=None \
         uses=EffectRow { effects: [] }\n  block\n    binary Lt\n      var n\n      int 3\n"
    );
}

#[test]
fn the_dump_tells_tests_apart() {
    let plain = comparison_program("fn f() -> Bool { n < 3 }");
    let mut test = comparison_program("fn f() -> Bool { n < 3 }");
    test.functions[0].is_test = true;
    let dump = emela::fmt::dump::ast_dump(&test);
    assert!(dump.starts_with("t\nmodule None\nfn f test=true pub=false "), "{dump}");
    assert_ne!(dump, emela::fmt::dump::ast_dump(&plain));
    // An output that drops `@test` is refused.
    let refused = confirm_format("t.emel", "text".to_string(), &test, &plain, vec![]);
    assert_eq!(
        refused.unwrap_err().render(),
        "internal: emela fmt would change the meaning of t.emel; the file was left unchanged"
    );
    let mut moved = comparison_program("fn f() -> Bool { n < 3 }");
    moved.functions[0].effect_name = Some("Io".to_string());
    assert_ne!(emela::fmt::dump::ast_dump(&moved), emela::fmt::dump::ast_dump(&plain));
    let mut declared = comparison_program("fn f() -> Bool { n < 3 }");
    declared.functions[0].declared_module = Some("app".to_string());
    assert_ne!(emela::fmt::dump::ast_dump(&declared), emela::fmt::dump::ast_dump(&plain));
}

#[test]
fn comments_stand_in_the_text_as_often_as_in_the_source() {
    let sources = [
        "-- a\nfn f() -> Int { -- a\n  f(1, -- a\n 2) -- b\n}\n-- a\n",
        "fn f() -> Int {\n    f(\n        -- one\n        -- one\n    )\n}   -- one  \n",
        "-- x\n-- x y\nlet z = \"-- x\" -- x\n",
    ];
    for source in sources {
        let text = fmt(source);
        for comment in ["-- a", "-- b", "-- one", "-- x", "-- x y"] {
            let written = source
                .lines()
                .filter(|line| line.trim_end().ends_with(comment))
                .count();
            let kept = text.matches(comment).count();
            assert!(kept >= written, "{comment} in {text:?}");
        }
    }
}

#[test]
fn a_file_ends_with_a_brace_that_closes_nothing() {
    let source = "-- a\n}\n-- b\n";
    let text = format_parsed("test.emel", source, &empty_program(), vec![]).unwrap();
    assert_eq!(text, "-- a\n");
}

#[test]
fn formatted_text_is_clean() {
    let text = fmt("fn a() -> Int {\n    1   \n\n\n}  \n\n-- a\t\n\n\n");
    assert_eq!(clean(&text), text);
    assert_eq!(clean("a  \n\nb\r\n\n"), "a\n\nb\n");
    assert_eq!(clean(""), "");
}
