//! The lexer.
//!
//! Lexing collects every error instead of stopping at the first: a malformed
//! literal still produces a placeholder token and an unknown character is
//! skipped, so the parser always gets a full token stream.

use std::sync::Arc;

use vstd::prelude::*;

use crate::error::{located, problems, Diagnostic, Error, Problem};
use crate::source::{
    byte_len, offset, offset_is_monotonic, share, source_file, Extent, SourceFile, SourceText,
    Span,
};
use crate::strings::{owned, same};

verus! {

#[derive(Debug, PartialEq, Eq)]
pub enum TokenKind {
    Fn,
    Extern,
    Intrinsic,
    Trait,
    Impl,
    Effect,
    For,
    Import,
    Let,
    Module,
    Pub,
    Uses,
    Enum,
    /// `record`.
    Record,
    Match,
    If,
    Else,
    Throws,
    Throw,
    Try,
    Catch,
    Panic,
    True,
    False,
    LParen,
    RParen,
    LBrace,
    RBrace,
    LBracket,
    RBracket,
    Comma,
    Colon,
    /// `::`, the type-path separator for enum variants.
    ColonColon,
    Dot,
    Eq,
    EqEq,
    Ne,
    Arrow,
    Lt,
    Gt,
    Le,
    Ge,
    /// `<<`.
    Shl,
    /// `>>`.
    Shr,
    /// `>>>`.
    UShr,
    Plus,
    PlusPlus,
    Minus,
    Star,
    Slash,
    Percent,
    Bang,
    /// `~`.
    Tilde,
    AmpAmp,
    PipePipe,
    /// `|>`, the pipeline operator.
    PipeGt,
    Question,
    Newline,
    Eof,
    Ident(String),
    Int(i32),
    /// A `Float` literal, by its source text.
    Float(String),
    String(String),
    Char(char),
    /// `@name`, an attribute. The `@` and the name are one token, which is what
    /// makes them inseparable (no whitespace between them).
    At(String),
}

/// What a [`TokenKind`] says.
#[verifier::ext_equal]
pub enum Kind {
    Fn,
    Extern,
    Intrinsic,
    Trait,
    Impl,
    Effect,
    For,
    Import,
    Let,
    Module,
    Pub,
    Uses,
    Enum,
    Record,
    Match,
    If,
    Else,
    Throws,
    Throw,
    Try,
    Catch,
    Panic,
    True,
    False,
    LParen,
    RParen,
    LBrace,
    RBrace,
    LBracket,
    RBracket,
    Comma,
    Colon,
    ColonColon,
    Dot,
    Eq,
    EqEq,
    Ne,
    Arrow,
    Lt,
    Gt,
    Le,
    Ge,
    Shl,
    Shr,
    UShr,
    Plus,
    PlusPlus,
    Minus,
    Star,
    Slash,
    Percent,
    Bang,
    Tilde,
    AmpAmp,
    PipePipe,
    PipeGt,
    Question,
    Newline,
    Eof,
    Ident(Seq<char>),
    Int(i32),
    Float(Seq<char>),
    String(Seq<char>),
    Char(char),
    At(Seq<char>),
}

impl TokenKind {
    pub open spec fn view(&self) -> Kind {
        match self {
            TokenKind::Fn => Kind::Fn,
            TokenKind::Extern => Kind::Extern,
            TokenKind::Intrinsic => Kind::Intrinsic,
            TokenKind::Trait => Kind::Trait,
            TokenKind::Impl => Kind::Impl,
            TokenKind::Effect => Kind::Effect,
            TokenKind::For => Kind::For,
            TokenKind::Import => Kind::Import,
            TokenKind::Let => Kind::Let,
            TokenKind::Module => Kind::Module,
            TokenKind::Pub => Kind::Pub,
            TokenKind::Uses => Kind::Uses,
            TokenKind::Enum => Kind::Enum,
            TokenKind::Record => Kind::Record,
            TokenKind::Match => Kind::Match,
            TokenKind::If => Kind::If,
            TokenKind::Else => Kind::Else,
            TokenKind::Throws => Kind::Throws,
            TokenKind::Throw => Kind::Throw,
            TokenKind::Try => Kind::Try,
            TokenKind::Catch => Kind::Catch,
            TokenKind::Panic => Kind::Panic,
            TokenKind::True => Kind::True,
            TokenKind::False => Kind::False,
            TokenKind::LParen => Kind::LParen,
            TokenKind::RParen => Kind::RParen,
            TokenKind::LBrace => Kind::LBrace,
            TokenKind::RBrace => Kind::RBrace,
            TokenKind::LBracket => Kind::LBracket,
            TokenKind::RBracket => Kind::RBracket,
            TokenKind::Comma => Kind::Comma,
            TokenKind::Colon => Kind::Colon,
            TokenKind::ColonColon => Kind::ColonColon,
            TokenKind::Dot => Kind::Dot,
            TokenKind::Eq => Kind::Eq,
            TokenKind::EqEq => Kind::EqEq,
            TokenKind::Ne => Kind::Ne,
            TokenKind::Arrow => Kind::Arrow,
            TokenKind::Lt => Kind::Lt,
            TokenKind::Gt => Kind::Gt,
            TokenKind::Le => Kind::Le,
            TokenKind::Ge => Kind::Ge,
            TokenKind::Shl => Kind::Shl,
            TokenKind::Shr => Kind::Shr,
            TokenKind::UShr => Kind::UShr,
            TokenKind::Plus => Kind::Plus,
            TokenKind::PlusPlus => Kind::PlusPlus,
            TokenKind::Minus => Kind::Minus,
            TokenKind::Star => Kind::Star,
            TokenKind::Slash => Kind::Slash,
            TokenKind::Percent => Kind::Percent,
            TokenKind::Bang => Kind::Bang,
            TokenKind::Tilde => Kind::Tilde,
            TokenKind::AmpAmp => Kind::AmpAmp,
            TokenKind::PipePipe => Kind::PipePipe,
            TokenKind::PipeGt => Kind::PipeGt,
            TokenKind::Question => Kind::Question,
            TokenKind::Newline => Kind::Newline,
            TokenKind::Eof => Kind::Eof,
            TokenKind::Ident(s) => Kind::Ident(s@),
            TokenKind::Int(v) => Kind::Int(*v),
            TokenKind::Float(s) => Kind::Float(s@),
            TokenKind::String(s) => Kind::String(s@),
            TokenKind::Char(c) => Kind::Char(*c),
            TokenKind::At(s) => Kind::At(s@),
        }
    }

    /// A copy of the kind.
    pub fn copy(&self) -> (r: TokenKind)
        ensures
            r@ == self@,
    {
        match self {
            TokenKind::Fn => TokenKind::Fn,
            TokenKind::Extern => TokenKind::Extern,
            TokenKind::Intrinsic => TokenKind::Intrinsic,
            TokenKind::Trait => TokenKind::Trait,
            TokenKind::Impl => TokenKind::Impl,
            TokenKind::Effect => TokenKind::Effect,
            TokenKind::For => TokenKind::For,
            TokenKind::Import => TokenKind::Import,
            TokenKind::Let => TokenKind::Let,
            TokenKind::Module => TokenKind::Module,
            TokenKind::Pub => TokenKind::Pub,
            TokenKind::Uses => TokenKind::Uses,
            TokenKind::Enum => TokenKind::Enum,
            TokenKind::Record => TokenKind::Record,
            TokenKind::Match => TokenKind::Match,
            TokenKind::If => TokenKind::If,
            TokenKind::Else => TokenKind::Else,
            TokenKind::Throws => TokenKind::Throws,
            TokenKind::Throw => TokenKind::Throw,
            TokenKind::Try => TokenKind::Try,
            TokenKind::Catch => TokenKind::Catch,
            TokenKind::Panic => TokenKind::Panic,
            TokenKind::True => TokenKind::True,
            TokenKind::False => TokenKind::False,
            TokenKind::LParen => TokenKind::LParen,
            TokenKind::RParen => TokenKind::RParen,
            TokenKind::LBrace => TokenKind::LBrace,
            TokenKind::RBrace => TokenKind::RBrace,
            TokenKind::LBracket => TokenKind::LBracket,
            TokenKind::RBracket => TokenKind::RBracket,
            TokenKind::Comma => TokenKind::Comma,
            TokenKind::Colon => TokenKind::Colon,
            TokenKind::ColonColon => TokenKind::ColonColon,
            TokenKind::Dot => TokenKind::Dot,
            TokenKind::Eq => TokenKind::Eq,
            TokenKind::EqEq => TokenKind::EqEq,
            TokenKind::Ne => TokenKind::Ne,
            TokenKind::Arrow => TokenKind::Arrow,
            TokenKind::Lt => TokenKind::Lt,
            TokenKind::Gt => TokenKind::Gt,
            TokenKind::Le => TokenKind::Le,
            TokenKind::Ge => TokenKind::Ge,
            TokenKind::Shl => TokenKind::Shl,
            TokenKind::Shr => TokenKind::Shr,
            TokenKind::UShr => TokenKind::UShr,
            TokenKind::Plus => TokenKind::Plus,
            TokenKind::PlusPlus => TokenKind::PlusPlus,
            TokenKind::Minus => TokenKind::Minus,
            TokenKind::Star => TokenKind::Star,
            TokenKind::Slash => TokenKind::Slash,
            TokenKind::Percent => TokenKind::Percent,
            TokenKind::Bang => TokenKind::Bang,
            TokenKind::Tilde => TokenKind::Tilde,
            TokenKind::AmpAmp => TokenKind::AmpAmp,
            TokenKind::PipePipe => TokenKind::PipePipe,
            TokenKind::PipeGt => TokenKind::PipeGt,
            TokenKind::Question => TokenKind::Question,
            TokenKind::Newline => TokenKind::Newline,
            TokenKind::Eof => TokenKind::Eof,
            TokenKind::Ident(s) => TokenKind::Ident(s.clone()),
            TokenKind::Int(v) => TokenKind::Int(*v),
            TokenKind::Float(s) => TokenKind::Float(s.clone()),
            TokenKind::String(s) => TokenKind::String(s.clone()),
            TokenKind::Char(c) => TokenKind::Char(*c),
            TokenKind::At(s) => TokenKind::At(s.clone()),
        }
    }
}

#[derive(Debug)]
pub struct Token {
    pub kind: TokenKind,
    pub span: Span,
}

/// A `--` comment, discarded by `lex` but collected by `lex_with_comments` for
/// the formatter. The span covers `--` through the end of the comment text
/// (excluding the newline).
#[derive(Debug)]
pub struct Comment {
    pub span: Span,
}

/// What a [`Token`] says: its kind and the bytes it covers.
#[verifier::ext_equal]
pub struct Tok {
    pub kind: Kind,
    pub start: nat,
    pub end: nat,
}

/// What a [`Comment`] says: the bytes it covers.
#[verifier::ext_equal]
pub struct Remark {
    pub start: nat,
    pub end: nat,
}

impl Token {
    pub open spec fn view(&self) -> Tok {
        Tok { kind: self.kind@, start: self.span.start as nat, end: self.span.end as nat }
    }

    /// A copy of the token.
    pub fn copy(&self) -> (r: Token)
        ensures
            r@ == self@,
            r.span == self.span,
    {
        Token { kind: self.kind.copy(), span: self.span.copy() }
    }
}

impl Comment {
    pub open spec fn view(&self) -> Remark {
        Remark { start: self.span.start as nat, end: self.span.end as nat }
    }

    /// A copy of the comment.
    pub fn copy(&self) -> (r: Comment)
        ensures
            r@ == self@,
            r.span == self.span,
    {
        Comment { span: self.span.copy() }
    }
}

/// Whether a span points into a source with this label.
pub open spec fn points_into(span: Span, label: Seq<char>, source: Seq<char>) -> bool {
    span@.label == label && span@.source == source
}

/// Whether every token points into a source with this label.
pub open spec fn tokens_point_into(s: Seq<Token>, label: Seq<char>, source: Seq<char>) -> bool {
    forall|k: int| 0 <= k < s.len() ==> points_into((#[trigger] s[k]).span, label, source)
}

/// Whether every comment points into a source with this label.
pub open spec fn comments_point_into(s: Seq<Comment>, label: Seq<char>, source: Seq<char>) -> bool {
    forall|k: int| 0 <= k < s.len() ==> points_into((#[trigger] s[k]).span, label, source)
}

/// What a list of tokens says.
pub open spec fn toks(s: Seq<Token>) -> Seq<Tok> {
    s.map_values(|t: Token| t@)
}

/// What a list of comments says.
pub open spec fn remarks(s: Seq<Comment>) -> Seq<Remark> {
    s.map_values(|c: Comment| c@)
}

/// A decimal digit.
pub open spec fn is_digit(c: char) -> bool {
    '0' <= c && c <= '9'
}

/// A letter or an underscore: the start of a word.
pub open spec fn starts_word(c: char) -> bool {
    ('a' <= c && c <= 'z') || ('A' <= c && c <= 'Z') || c == '_'
}

/// A character of a word.
pub open spec fn in_word(c: char) -> bool {
    starts_word(c) || is_digit(c)
}

fn digit_char(c: char) -> (r: bool)
    ensures
        r == is_digit(c),
{
    '0' <= c && c <= '9'
}

fn word_start(c: char) -> (r: bool)
    ensures
        r == starts_word(c),
{
    ('a' <= c && c <= 'z') || ('A' <= c && c <= 'Z') || c == '_'
}

/// The index of the first character at or after `i` that is no word character.
pub open spec fn word_end(s: Seq<char>, i: int) -> int
    decreases s.len() - i,
{
    if 0 <= i < s.len() && in_word(s[i]) {
        word_end(s, i + 1)
    } else {
        i
    }
}

/// The index of the first character at or after `i` that is no digit.
pub open spec fn digits_end(s: Seq<char>, i: int) -> int
    decreases s.len() - i,
{
    if 0 <= i < s.len() && is_digit(s[i]) {
        digits_end(s, i + 1)
    } else {
        i
    }
}

/// The value of a run of digits.
pub open spec fn digits_value(s: Seq<char>) -> nat
    decreases s.len(),
{
    if s.len() == 0 {
        0
    } else {
        digits_value(s.drop_last()) * 10 + (s.last() as int - '0' as int) as nat
    }
}

/// The token of a word: a keyword or an identifier.
pub open spec fn word_kind(text: Seq<char>) -> Kind {
    if text == "fn"@ {
        Kind::Fn
    } else if text == "ex"@ + "tern"@ {
        Kind::Extern
    } else if text == "intrinsic"@ {
        Kind::Intrinsic
    } else if text == "trait"@ {
        Kind::Trait
    } else if text == "impl"@ {
        Kind::Impl
    } else if text == "effect"@ {
        Kind::Effect
    } else if text == "for"@ {
        Kind::For
    } else if text == "import"@ {
        Kind::Import
    } else if text == "let"@ {
        Kind::Let
    } else if text == "module"@ {
        Kind::Module
    } else if text == "pub"@ {
        Kind::Pub
    } else if text == "uses"@ {
        Kind::Uses
    } else if text == "enum"@ {
        Kind::Enum
    } else if text == "record"@ {
        Kind::Record
    } else if text == "match"@ {
        Kind::Match
    } else if text == "if"@ {
        Kind::If
    } else if text == "else"@ {
        Kind::Else
    } else if text == "throws"@ {
        Kind::Throws
    } else if text == "throw"@ {
        Kind::Throw
    } else if text == "try"@ {
        Kind::Try
    } else if text == "catch"@ {
        Kind::Catch
    } else if text == "panic"@ {
        Kind::Panic
    } else if text == "true"@ {
        Kind::True
    } else if text == "false"@ {
        Kind::False
    } else {
        Kind::Ident(text)
    }
}

/// The token of a two-character operator.
pub open spec fn pair_kind(a: char, b: char) -> Option<Kind> {
    if a == '-' && b == '>' {
        Some(Kind::Arrow)
    } else if a == '=' && b == '=' {
        Some(Kind::EqEq)
    } else if a == '!' && b == '=' {
        Some(Kind::Ne)
    } else if a == '<' && b == '=' {
        Some(Kind::Le)
    } else if a == '>' && b == '=' {
        Some(Kind::Ge)
    } else if a == ':' && b == ':' {
        Some(Kind::ColonColon)
    } else if a == '+' && b == '+' {
        Some(Kind::PlusPlus)
    } else if a == '&' && b == '&' {
        Some(Kind::AmpAmp)
    } else if a == '|' && b == '|' {
        Some(Kind::PipePipe)
    } else if a == '|' && b == '>' {
        Some(Kind::PipeGt)
    } else {
        None
    }
}

/// The token of a one-character operator or separator.
pub open spec fn single_kind(c: char) -> Option<Kind> {
    if c == ',' {
        Some(Kind::Comma)
    } else if c == ':' {
        Some(Kind::Colon)
    } else if c == '.' {
        Some(Kind::Dot)
    } else if c == '=' {
        Some(Kind::Eq)
    } else if c == '<' {
        Some(Kind::Lt)
    } else if c == '>' {
        Some(Kind::Gt)
    } else if c == '+' {
        Some(Kind::Plus)
    } else if c == '-' {
        Some(Kind::Minus)
    } else if c == '*' {
        Some(Kind::Star)
    } else if c == '/' {
        Some(Kind::Slash)
    } else if c == '%' {
        Some(Kind::Percent)
    } else if c == '!' {
        Some(Kind::Bang)
    } else if c == '?' {
        Some(Kind::Question)
    } else {
        None
    }
}

/// The token of an opening bracket.
pub open spec fn opener_kind(c: char) -> Option<Kind> {
    if c == '(' {
        Some(Kind::LParen)
    } else if c == '{' {
        Some(Kind::LBrace)
    } else if c == '[' {
        Some(Kind::LBracket)
    } else {
        None
    }
}

/// The token of a closing bracket.
pub open spec fn closer_kind(c: char) -> Option<Kind> {
    if c == ')' {
        Some(Kind::RParen)
    } else if c == '}' {
        Some(Kind::RBrace)
    } else if c == ']' {
        Some(Kind::RBracket)
    } else {
        None
    }
}

/// How far lexing has come: the next character, the open brackets, and what
/// was found. Inside `(...)` and `[...]` a newline is whitespace; a `{`
/// restores its significance, so statements inside `foo(match x { ... })` are
/// still newline-separated.
#[verifier::ext_equal]
pub struct Lexed {
    pub label: Seq<char>,
    pub src: Seq<char>,
    pub i: int,
    pub brackets: Seq<char>,
    pub tokens: Seq<Tok>,
    pub comments: Seq<Remark>,
    pub errors: Seq<Problem>,
}

/// The extent of the characters from `i` to `j`.
pub open spec fn extent(st: Lexed, i: int, j: int) -> Extent {
    Extent {
        label: st.label,
        source: st.src,
        start: offset(st.src, i),
        end: offset(st.src, j),
    }
}

/// One more token, up to character `j`, where lexing goes on.
pub open spec fn with_token(st: Lexed, kind: Kind, j: int) -> Lexed {
    Lexed {
        i: j,
        tokens: st.tokens.push(
            Tok { kind, start: offset(st.src, st.i), end: offset(st.src, j) },
        ),
        ..st
    }
}

/// One more error.
pub open spec fn with_error(st: Lexed, title: Seq<char>, i: int, j: int, message: Seq<char>) -> Lexed {
    Lexed {
        errors: st.errors.push(located(title, extent(st, i, j), message, None)),
        ..st
    }
}

/// A comment runs to the end of the line.
pub open spec fn lex_comment(st: Lexed) -> Lexed {
    let end = crate::error::line_end(st.src, st.i + 2);
    Lexed {
        i: end,
        comments: st.comments.push(
            Remark { start: offset(st.src, st.i), end: offset(st.src, end) },
        ),
        ..st
    }
}

/// An attribute: the name must immediately follow the `@`.
pub open spec fn lex_attribute(st: Lexed) -> Lexed {
    let end = word_end(st.src, st.i + 1);
    if end == st.i + 1 {
        Lexed {
            i: end,
            ..with_error(
                st,
                "Attribute name is missing"@,
                st.i,
                st.i + 1,
                "`@` must be immediately followed by an attribute name, e.g. `@test`"@,
            )
        }
    } else {
        with_token(st, Kind::At(st.src.subrange(st.i + 1, end)), end)
    }
}

/// A number: an `Int`, or a `Float` when a dot and another digit follow. An
/// `Int` that does not fit is reported and stands as zero.
pub open spec fn lex_number(st: Lexed) -> Lexed {
    let s = st.src;
    let end = digits_end(s, st.i + 1);
    if end + 1 < s.len() && s[end] == '.' && is_digit(s[end + 1]) {
        let stop = digits_end(s, end + 1);
        with_token(st, Kind::Float(s.subrange(st.i, stop)), stop)
    } else {
        let value = digits_value(s.subrange(st.i, end));
        if value <= i32::MAX {
            with_token(st, Kind::Int(value as i32), end)
        } else {
            with_token(
                with_error(st, "Integer literal is too large"@, st.i, end, "does not fit in Int"@),
                Kind::Int(0),
                end,
            )
        }
    }
}

/// What an escape in a string stands for.
pub open spec fn string_escape(c: char) -> Option<char> {
    if c == 'n' {
        Some('\n')
    } else if c == 'r' {
        Some('\r')
    } else if c == 't' {
        Some('\t')
    } else if c == '"' {
        Some('"')
    } else if c == '\\' {
        Some('\\')
    } else {
        None
    }
}

/// What an escape in a character literal stands for.
pub open spec fn char_escape(c: char) -> Option<char> {
    if c == '\'' {
        Some('\'')
    } else {
        string_escape(c)
    }
}

/// The message for an escape that is not supported.
pub open spec fn escape_message(c: char) -> Seq<char> {
    "unsupported escape `\\"@.push(c) + "`"@
}

/// The contents of a string literal as far as they were read.
#[verifier::ext_equal]
pub struct Text {
    pub end: int,
    pub value: Seq<char>,
    pub errors: Seq<Problem>,
    pub terminated: bool,
}

/// Reads the contents of a string literal from character `j` on, up to the
/// closing quote, the end of the line or the end of the file.
pub open spec fn string_contents(st: Lexed, j: int, value: Seq<char>, errors: Seq<Problem>) -> Text
    decreases st.src.len() - j,
{
    let s = st.src;
    if j < 0 || j >= s.len() || s[j] == '\n' {
        Text { end: j, value, errors, terminated: false }
    } else if s[j] == '"' {
        Text { end: j + 1, value, errors, terminated: true }
    } else if s[j] == '\\' {
        if j + 1 >= s.len() {
            Text { end: j + 1, value, errors, terminated: false }
        } else {
            match string_escape(s[j + 1]) {
                Some(c) => string_contents(st, j + 2, value.push(c), errors),
                None => string_contents(
                    st,
                    j + 2,
                    value,
                    errors.push(
                        located(
                            "Unsupported string escape"@,
                            extent(st, j, j + 2),
                            escape_message(s[j + 1]),
                            None,
                        ),
                    ),
                ),
            }
        }
    } else {
        string_contents(st, j + 1, value.push(s[j]), errors)
    }
}

/// The error of a string without a closing quote.
pub open spec fn unterminated(st: Lexed) -> Problem {
    located(
        "Unterminated string"@,
        extent(st, st.i, st.i + 1),
        "string starts here"@,
        Some("Add a closing double quote before the end of the line."@),
    )
}

/// A string literal.
pub open spec fn lex_string(st: Lexed) -> Lexed {
    let t = string_contents(st, st.i + 1, Seq::empty(), st.errors);
    with_token(
        Lexed {
            errors: if t.terminated {
                t.errors
            } else {
                t.errors.push(unterminated(st))
            },
            ..st
        },
        Kind::String(t.value),
        t.end,
    )
}

/// A character literal as far as it was read.
#[verifier::ext_equal]
pub struct Letter {
    pub value: Option<char>,
    pub end: int,
    /// Whether an escape stands there.
    pub named: bool,
    pub closed: bool,
}

/// Reads a character literal: one character or an escape, and the closing quote.
pub open spec fn char_contents(st: Lexed) -> Letter {
    let s = st.src;
    let j = st.i + 1;
    let escaped = j < s.len() && s[j] == '\\';
    let named = escaped && j + 1 < s.len();
    let value: Option<char> = if named {
        char_escape(s[j + 1])
    } else if escaped || j >= s.len() {
        None
    } else {
        Some(s[j])
    };
    let after = if named {
        j + 2
    } else if j < s.len() {
        j + 1
    } else {
        j
    };
    let closed = after < s.len() && s[after] == '\'';
    Letter {
        value,
        end: if closed {
            after + 1
        } else {
            after
        },
        named,
        closed,
    }
}

/// Reports what is wrong with a character literal.
pub open spec fn check_char(st: Lexed, l: Letter) -> Lexed {
    let j = st.i + 1;
    if l.named && l.value is None {
        with_error(
            st,
            "Unsupported character escape"@,
            j,
            j + 2,
            escape_message(st.src[j + 1]),
        )
    } else if l.value is None || !l.closed {
        with_error(
            st,
            "Invalid character literal"@,
            st.i,
            l.end,
            "a character literal holds exactly one character, e.g. `'a'`"@,
        )
    } else {
        st
    }
}

/// A character literal. On any malformed literal, one error is reported and a
/// placeholder token still stands.
pub open spec fn lex_char(st: Lexed) -> Lexed {
    let l = char_contents(st);
    with_token(
        check_char(st, l),
        Kind::Char(
            match l.value {
                Some(c) => c,
                None => '\0',
            },
        ),
        l.end,
    )
}

/// A word.
pub open spec fn lex_word(st: Lexed) -> Lexed {
    let end = word_end(st.src, st.i + 1);
    with_token(st, word_kind(st.src.subrange(st.i, end)), end)
}

/// A character that starts no token: reported and skipped.
pub open spec fn lex_unknown(st: Lexed) -> Lexed {
    Lexed {
        i: st.i + 1,
        ..with_error(
            st,
            "Unexpected character"@,
            st.i,
            st.i + 1,
            "unexpected character `"@.push(st.src[st.i]) + "`"@,
        )
    }
}

/// Whether a newline is whitespace here.
pub open spec fn newline_is_blank(st: Lexed) -> bool {
    st.brackets.len() > 0 && (st.brackets.last() == '(' || st.brackets.last() == '[')
}

/// Lexes what starts at the next character.
pub open spec fn lex_step(st: Lexed) -> Lexed {
    let s = st.src;
    let c = s[st.i];
    let pair = if st.i + 1 < s.len() {
        pair_kind(c, s[st.i + 1])
    } else {
        None
    };
    if c == ' ' || c == '\t' || c == '\r' || (c == '\n' && newline_is_blank(st)) {
        Lexed { i: st.i + 1, ..st }
    } else if c == '\n' {
        with_token(st, Kind::Newline, st.i + 1)
    } else if c == '-' && st.i + 1 < s.len() && s[st.i + 1] == '-' {
        lex_comment(st)
    } else if let Some(kind) = pair {
        with_token(st, kind, st.i + 2)
    } else if let Some(kind) = opener_kind(c) {
        with_token(Lexed { brackets: st.brackets.push(c), ..st }, kind, st.i + 1)
    } else if let Some(kind) = closer_kind(c) {
        with_token(
            Lexed {
                brackets: if st.brackets.len() > 0 {
                    st.brackets.drop_last()
                } else {
                    st.brackets
                },
                ..st
            },
            kind,
            st.i + 1,
        )
    } else if let Some(kind) = single_kind(c) {
        with_token(st, kind, st.i + 1)
    } else if c == '@' {
        lex_attribute(st)
    } else if is_digit(c) {
        lex_number(st)
    } else if c == '"' {
        lex_string(st)
    } else if c == '\'' {
        lex_char(st)
    } else if starts_word(c) {
        lex_word(st)
    } else {
        lex_unknown(st)
    }
}

proof fn lemma_word_end(s: Seq<char>, i: int)
    requires
        0 <= i <= s.len(),
    ensures
        i <= word_end(s, i) <= s.len(),
    decreases s.len() - i,
{
    if i < s.len() && in_word(s[i]) {
        lemma_word_end(s, i + 1);
    }
}

proof fn lemma_digits_end(s: Seq<char>, i: int)
    requires
        0 <= i <= s.len(),
    ensures
        i <= digits_end(s, i) <= s.len(),
    decreases s.len() - i,
{
    if i < s.len() && is_digit(s[i]) {
        lemma_digits_end(s, i + 1);
    }
}

proof fn lemma_line_end(s: Seq<char>, i: int)
    requires
        0 <= i <= s.len(),
    ensures
        i <= crate::error::line_end(s, i) <= s.len(),
    decreases s.len() - i,
{
    if i < s.len() && s[i] != '\n' {
        lemma_line_end(s, i + 1);
    }
}

proof fn lemma_string_end(st: Lexed, j: int, value: Seq<char>, errors: Seq<Problem>)
    requires
        0 <= j <= st.src.len(),
    ensures
        j <= string_contents(st, j, value, errors).end <= st.src.len(),
    decreases st.src.len() - j,
{
    let s = st.src;
    if j < s.len() && s[j] != '\n' && s[j] != '"' {
        if s[j] == '\\' {
            if j + 1 < s.len() {
                match string_escape(s[j + 1]) {
                    Some(c) => lemma_string_end(st, j + 2, value.push(c), errors),
                    None => lemma_string_end(
                        st,
                        j + 2,
                        value,
                        errors.push(
                            located(
                                "Unsupported string escape"@,
                                extent(st, j, j + 2),
                                escape_message(s[j + 1]),
                                None,
                            ),
                        ),
                    ),
                }
            }
        } else {
            lemma_string_end(st, j + 1, value.push(s[j]), errors);
        }
    }
}

/// Lexing always moves on, and stays within the text.
pub proof fn lex_step_advances(st: Lexed)
    requires
        0 <= st.i < st.src.len(),
    ensures
        st.i < lex_step(st).i <= st.src.len(),
        lex_step(st).src == st.src,
        lex_step(st).label == st.label,
{
    let s = st.src;
    lemma_word_end(s, st.i + 1);
    lemma_digits_end(s, st.i + 1);
    let end = digits_end(s, st.i + 1);
    if end + 1 < s.len() {
        lemma_digits_end(s, end + 1);
    }
    if st.i + 2 <= s.len() {
        lemma_line_end(s, st.i + 2);
    }
    lemma_string_end(st, st.i + 1, Seq::empty(), st.errors);
}

/// Lexes the rest of the text.
pub open spec fn lex_rest(st: Lexed) -> Lexed
    decreases st.src.len() - st.i,
    via lex_rest_decreases
{
    if 0 <= st.i < st.src.len() {
        lex_rest(lex_step(st))
    } else {
        st
    }
}

#[via_fn]
proof fn lex_rest_decreases(st: Lexed) {
    if 0 <= st.i < st.src.len() {
        lex_step_advances(st);
    }
}

/// The state before the first character.
pub open spec fn lex_start(label: Seq<char>, source: Seq<char>) -> Lexed {
    Lexed {
        label,
        src: source,
        i: 0,
        brackets: Seq::empty(),
        tokens: Seq::empty(),
        comments: Seq::empty(),
        errors: Seq::empty(),
    }
}

/// The lexing of a whole source text.
pub open spec fn lexed(label: Seq<char>, source: Seq<char>) -> Lexed {
    lex_rest(lex_start(label, source))
}

/// The token at the end of the file, one byte past the text.
pub open spec fn eof_token(source: Seq<char>) -> Tok {
    Tok {
        kind: Kind::Eof,
        start: byte_len(source),
        end: if byte_len(source) < usize::MAX {
            byte_len(source) + 1
        } else {
            usize::MAX as nat
        },
    }
}

/// The tokens of a source text.
pub open spec fn tokens_of(label: Seq<char>, source: Seq<char>) -> Seq<Tok> {
    lexed(label, source).tokens.push(eof_token(source))
}

/// Whether the tokens so far are in order: each covers some of the text before
/// the next character, and none begins before the one before it ends.
spec fn in_order(st: Lexed) -> bool {
    &&& forall|i: int|
        0 <= i < st.tokens.len() ==> (#[trigger] st.tokens[i]).start < st.tokens[i].end
            && st.tokens[i].end <= offset(st.src, st.i)
    &&& forall|i: int, j: int|
        0 <= i < j < st.tokens.len() ==> (#[trigger] st.tokens[i]).end <= (
        #[trigger] st.tokens[j]).start
}

/// Whether an identifier is made of word characters.
pub open spec fn is_word(text: Seq<char>) -> bool {
    text.len() > 0 && starts_word(text[0]) && forall|i: int|
        0 <= i < text.len() ==> in_word(#[trigger] text[i])
}

/// Whether the identifiers so far are words.
spec fn words(st: Lexed) -> bool {
    forall|i: int|
        0 <= i < st.tokens.len() ==> ((#[trigger] st.tokens[i]).kind matches Kind::Ident(text)
            ==> is_word(text))
}

proof fn lemma_word_chars(s: Seq<char>, i: int)
    requires
        0 <= i <= s.len(),
    ensures
        i <= word_end(s, i) <= s.len(),
        forall|k: int| i <= k < word_end(s, i) ==> in_word(#[trigger] s[k]),
    decreases s.len() - i,
{
    if i < s.len() && in_word(s[i]) {
        lemma_word_chars(s, i + 1);
    }
}

/// Whether a step leaves the tokens alone, or adds one that runs from the
/// character it begins with to the one where lexing goes on.
spec fn steps_by_token(st: Lexed, next: Lexed) -> bool {
    next.tokens == st.tokens || {
        let t = next.tokens.last();
        &&& next.tokens == st.tokens.push(t)
        &&& t.start == offset(st.src, st.i)
        &&& t.end == offset(st.src, next.i)
        &&& t.kind matches Kind::Ident(text) ==> is_word(text)
    }
}

proof fn lemma_with_token(st: Lexed, base: Lexed, kind: Kind, j: int)
    requires
        base.tokens == st.tokens,
        base.src == st.src,
        base.i == st.i,
        kind matches Kind::Ident(text) ==> is_word(text),
    ensures
        steps_by_token(st, with_token(base, kind, j)),
{
    let next = with_token(base, kind, j);
    assert(next.tokens.last().kind == kind);
}

proof fn lemma_word_kind(text: Seq<char>)
    ensures
        word_kind(text) matches Kind::Ident(t) ==> t == text,
{
}

proof fn lemma_step_word(st: Lexed)
    requires
        0 <= st.i < st.src.len(),
        starts_word(st.src[st.i]),
    ensures
        steps_by_token(st, lex_word(st)),
{
    let s = st.src;
    lemma_word_chars(s, st.i + 1);
    let end = word_end(s, st.i + 1);
    let text = s.subrange(st.i, end);
    lemma_word_kind(text);
    assert(is_word(text)) by {
        assert forall|k: int| 0 <= k < text.len() implies in_word(#[trigger] text[k]) by {
            assert(text[k] == s[st.i + k]);
        }
    }
    lemma_with_token(st, st, word_kind(text), end);
}

proof fn lemma_step_char(st: Lexed)
    ensures
        steps_by_token(st, lex_char(st)),
{
    let l = char_contents(st);
    let c = match l.value {
        Some(c) => c,
        None => '\0',
    };
    lemma_with_token(st, check_char(st, l), Kind::Char(c), l.end);
}

proof fn lemma_step_number(st: Lexed)
    ensures
        steps_by_token(st, lex_number(st)),
{
    let next = lex_number(st);
    assert(next.tokens.last().kind is Int || next.tokens.last().kind is Float);
    assert(next.tokens =~= st.tokens.push(next.tokens.last()));
}

proof fn lemma_step_string(st: Lexed)
    ensures
        steps_by_token(st, lex_string(st)),
{
    let next = lex_string(st);
    assert(next.tokens.last().kind is String);
    assert(next.tokens =~= st.tokens.push(next.tokens.last()));
}

proof fn lemma_step_attribute(st: Lexed)
    ensures
        steps_by_token(st, lex_attribute(st)),
{
    let next = lex_attribute(st);
    if word_end(st.src, st.i + 1) != st.i + 1 {
        assert(next.tokens.last().kind is At);
        assert(next.tokens =~= st.tokens.push(next.tokens.last()));
    }
}

proof fn lemma_symbols(a: char, b: char)
    ensures
        pair_kind(a, b) matches Some(k) ==> !(k is Ident),
        opener_kind(a) matches Some(k) ==> !(k is Ident),
        closer_kind(a) matches Some(k) ==> !(k is Ident),
        single_kind(a) matches Some(k) ==> !(k is Ident),
{
}

proof fn lemma_step_tokens(st: Lexed)
    requires
        0 <= st.i < st.src.len(),
    ensures
        steps_by_token(st, lex_step(st)),
{
    let s = st.src;
    let c = s[st.i];
    let b = if st.i + 1 < s.len() {
        s[st.i + 1]
    } else {
        c
    };
    lemma_symbols(c, b);
    let pair = if st.i + 1 < s.len() {
        pair_kind(c, s[st.i + 1])
    } else {
        None
    };
    if c == ' ' || c == '\t' || c == '\r' || (c == '\n' && newline_is_blank(st)) {
    } else if c == '\n' {
        lemma_with_token(st, st, Kind::Newline, st.i + 1);
    } else if c == '-' && st.i + 1 < s.len() && s[st.i + 1] == '-' {
    } else if let Some(kind) = pair {
        lemma_with_token(st, st, kind, st.i + 2);
    } else if let Some(kind) = opener_kind(c) {
        lemma_with_token(
            st,
            Lexed { brackets: st.brackets.push(c), ..st },
            kind,
            st.i + 1,
        );
    } else if let Some(kind) = closer_kind(c) {
        let base = Lexed {
            brackets: if st.brackets.len() > 0 {
                st.brackets.drop_last()
            } else {
                st.brackets
            },
            ..st
        };
        lemma_with_token(st, base, kind, st.i + 1);
    } else if let Some(kind) = single_kind(c) {
        lemma_with_token(st, st, kind, st.i + 1);
    } else if c == '@' {
        lemma_step_attribute(st);
    } else if is_digit(c) {
        lemma_step_number(st);
    } else if c == '"' {
        lemma_step_string(st);
    } else if c == '\'' {
        lemma_step_char(st);
    } else if starts_word(c) {
        lemma_step_word(st);
    }
}

proof fn lemma_rest_in_order(st: Lexed)
    requires
        0 <= st.i <= st.src.len(),
        in_order(st),
        words(st),
    ensures
        in_order(lex_rest(st)),
        words(lex_rest(st)),
        lex_rest(st).src == st.src,
        0 <= lex_rest(st).i <= st.src.len(),
    decreases st.src.len() - st.i,
{
    if st.i < st.src.len() {
        lex_step_advances(st);
        lemma_step_tokens(st);
        let next = lex_step(st);
        offset_is_monotonic(st.src, st.i, next.i);
        lemma_rest_in_order(next);
    }
}

/// Tokens stand in source order: each covers some bytes of the text, and none
/// begins before the one before it ends.
pub proof fn tokens_are_in_source_order(label: Seq<char>, source: Seq<char>)
    ensures
        forall|i: int|
            0 <= i < lexed(label, source).tokens.len() ==> (#[trigger] lexed(
                label,
                source,
            ).tokens[i]).start < lexed(label, source).tokens[i].end && lexed(
                label,
                source,
            ).tokens[i].end <= byte_len(source),
        forall|i: int, j: int|
            0 <= i < j < lexed(label, source).tokens.len() ==> (#[trigger] lexed(
                label,
                source,
            ).tokens[i]).end <= (#[trigger] lexed(label, source).tokens[j]).start,
{
    let start = lex_start(label, source);
    lemma_rest_in_order(start);
    let all = lexed(label, source);
    offset_is_monotonic(source, all.i, source.len() as int);
}

/// An identifier begins with a letter or an underscore and goes on with those and
/// digits, so no name of a program is one that the compiler makes up with `$` or
/// `#`.
pub proof fn identifiers_are_words(label: Seq<char>, source: Seq<char>, i: int)
    requires
        0 <= i < tokens_of(label, source).len(),
    ensures
        tokens_of(label, source)[i].kind matches Kind::Ident(text) ==> is_word(text)
            && !text.contains('$') && !text.contains('#'),
{
    let start = lex_start(label, source);
    lemma_rest_in_order(start);
    let all = lexed(label, source).tokens;
    if i < all.len() {
        assert(tokens_of(label, source)[i] == all[i]);
        if let Kind::Ident(text) = all[i].kind {
            assert(is_word(text));
            if text.contains('$') {
                let k = choose|k: int| 0 <= k < text.len() && text[k] == '$';
                assert(in_word(text[k]));
            }
            if text.contains('#') {
                let k = choose|k: int| 0 <= k < text.len() && text[k] == '#';
                assert(in_word(text[k]));
            }
        }
    }
}

fn is_extern_word(text: &str) -> (r: bool)
    ensures
        r == (text@ == "ex"@ + "tern"@),
{
    let mut word = owned("ex");
    word.push_str("tern");
    same(text, word.as_str())
}

fn keyword_or_name(text: &str) -> (r: TokenKind)
    ensures
        r@ == word_kind(text@),
{
    if same(text, "fn") {
        TokenKind::Fn
    } else if is_extern_word(text) {
        TokenKind::Extern
    } else if same(text, "intrinsic") {
        TokenKind::Intrinsic
    } else if same(text, "trait") {
        TokenKind::Trait
    } else if same(text, "impl") {
        TokenKind::Impl
    } else if same(text, "effect") {
        TokenKind::Effect
    } else if same(text, "for") {
        TokenKind::For
    } else if same(text, "import") {
        TokenKind::Import
    } else if same(text, "let") {
        TokenKind::Let
    } else if same(text, "module") {
        TokenKind::Module
    } else if same(text, "pub") {
        TokenKind::Pub
    } else if same(text, "uses") {
        TokenKind::Uses
    } else if same(text, "enum") {
        TokenKind::Enum
    } else if same(text, "record") {
        TokenKind::Record
    } else if same(text, "match") {
        TokenKind::Match
    } else if same(text, "if") {
        TokenKind::If
    } else if same(text, "else") {
        TokenKind::Else
    } else if same(text, "throws") {
        TokenKind::Throws
    } else if same(text, "throw") {
        TokenKind::Throw
    } else if same(text, "try") {
        TokenKind::Try
    } else if same(text, "catch") {
        TokenKind::Catch
    } else if same(text, "panic") {
        TokenKind::Panic
    } else if same(text, "true") {
        TokenKind::True
    } else if same(text, "false") {
        TokenKind::False
    } else {
        TokenKind::Ident(owned(text))
    }
}

fn pair_token(a: char, b: char) -> (r: Option<TokenKind>)
    ensures
        match r {
            Some(k) => pair_kind(a, b) == Some(k@),
            None => pair_kind(a, b) is None,
        },
{
    if a == '-' && b == '>' {
        Some(TokenKind::Arrow)
    } else if a == '=' && b == '=' {
        Some(TokenKind::EqEq)
    } else if a == '!' && b == '=' {
        Some(TokenKind::Ne)
    } else if a == '<' && b == '=' {
        Some(TokenKind::Le)
    } else if a == '>' && b == '=' {
        Some(TokenKind::Ge)
    } else if a == ':' && b == ':' {
        Some(TokenKind::ColonColon)
    } else if a == '+' && b == '+' {
        Some(TokenKind::PlusPlus)
    } else if a == '&' && b == '&' {
        Some(TokenKind::AmpAmp)
    } else if a == '|' && b == '|' {
        Some(TokenKind::PipePipe)
    } else if a == '|' && b == '>' {
        Some(TokenKind::PipeGt)
    } else {
        None
    }
}

fn single_token(c: char) -> (r: Option<TokenKind>)
    ensures
        match r {
            Some(k) => single_kind(c) == Some(k@),
            None => single_kind(c) is None,
        },
{
    if c == ',' {
        Some(TokenKind::Comma)
    } else if c == ':' {
        Some(TokenKind::Colon)
    } else if c == '.' {
        Some(TokenKind::Dot)
    } else if c == '=' {
        Some(TokenKind::Eq)
    } else if c == '<' {
        Some(TokenKind::Lt)
    } else if c == '>' {
        Some(TokenKind::Gt)
    } else if c == '+' {
        Some(TokenKind::Plus)
    } else if c == '-' {
        Some(TokenKind::Minus)
    } else if c == '*' {
        Some(TokenKind::Star)
    } else if c == '/' {
        Some(TokenKind::Slash)
    } else if c == '%' {
        Some(TokenKind::Percent)
    } else if c == '!' {
        Some(TokenKind::Bang)
    } else if c == '?' {
        Some(TokenKind::Question)
    } else {
        None
    }
}

fn opener_token(c: char) -> (r: Option<TokenKind>)
    ensures
        match r {
            Some(k) => opener_kind(c) == Some(k@),
            None => opener_kind(c) is None,
        },
{
    if c == '(' {
        Some(TokenKind::LParen)
    } else if c == '{' {
        Some(TokenKind::LBrace)
    } else if c == '[' {
        Some(TokenKind::LBracket)
    } else {
        None
    }
}

fn closer_token(c: char) -> (r: Option<TokenKind>)
    ensures
        match r {
            Some(k) => closer_kind(c) == Some(k@),
            None => closer_kind(c) is None,
        },
{
    if c == ')' {
        Some(TokenKind::RParen)
    } else if c == '}' {
        Some(TokenKind::RBrace)
    } else if c == ']' {
        Some(TokenKind::RBracket)
    } else {
        None
    }
}

fn escape_of(c: char) -> (r: Option<char>)
    ensures
        r == string_escape(c),
{
    if c == 'n' {
        Some('\n')
    } else if c == 'r' {
        Some('\r')
    } else if c == 't' {
        Some('\t')
    } else if c == '"' {
        Some('"')
    } else if c == '\\' {
        Some('\\')
    } else {
        None
    }
}

fn escape_error(c: char) -> (r: String)
    ensures
        r@ == escape_message(c),
{
    let mut message = owned("unsupported escape `\\");
    message.push(c);
    message.push_str("`");
    message
}

/// A running lexer.
struct Lexer {
    text: SourceText,
    file: Arc<SourceFile>,
    i: usize,
    brackets: Vec<char>,
    tokens: Vec<Token>,
    comments: Vec<Comment>,
    errors: Vec<Error>,
}

impl Lexer {
    spec fn view(&self) -> Lexed {
        Lexed {
            label: self.file.label@,
            src: self.text@,
            i: self.i as int,
            brackets: self.brackets@,
            tokens: toks(self.tokens@),
            comments: remarks(self.comments@),
            errors: problems(self.errors@),
        }
    }

    spec fn wf(&self) -> bool {
        &&& self.text.wf()
        &&& self.text@ == self.file.source@
        &&& self.i <= self.text@.len()
        &&& tokens_point_into(self.tokens@, self.file.label@, self.file.source@)
        &&& comments_point_into(self.comments@, self.file.label@, self.file.source@)
    }

    fn span(&self, i: usize, j: usize) -> (r: Span)
        requires
            self.wf(),
            i <= self.text@.len(),
            j <= self.text@.len(),
        ensures
            r@ == extent(self@, i as int, j as int),
            r.start == offset(self.text@, i as int),
            r.end == offset(self.text@, j as int),
            points_into(r, self.file.label@, self.file.source@),
    {
        Span::new(share(&self.file), self.text.at(i), self.text.at(j))
    }

    fn token(&mut self, kind: TokenKind, j: usize)
        requires
            old(self).wf(),
            j <= old(self).text@.len(),
        ensures
            final(self).wf(),
            final(self)@ == with_token(old(self)@, kind@, j as int),
    {
        let span = self.span(self.i, j);
        self.tokens.push(Token { kind, span });
        self.i = j;
        assert(toks(self.tokens@) =~= toks(old(self).tokens@).push(self.tokens@.last()@));
    }

    fn error(&mut self, title: &str, i: usize, j: usize, message: String)
        requires
            old(self).wf(),
            i <= old(self).text@.len(),
            j <= old(self).text@.len(),
        ensures
            final(self).wf(),
            final(self)@ == with_error(old(self)@, title@, i as int, j as int, message@),
    {
        let span = self.span(i, j);
        let e = Error::at(title, span, message);
        self.errors.push(e);
        assert(problems(self.errors@) =~= problems(old(self).errors@).push(e@));
    }

    fn word_stop(&self, from: usize) -> (r: usize)
        requires
            self.wf(),
            from <= self.text@.len(),
        ensures
            r == word_end(self.text@, from as int),
            from <= r <= self.text@.len(),
    {
        let mut j: usize = from;
        while j < self.text.chars.len() && (word_start(self.text.chars[j]) || digit_char(
            self.text.chars[j],
        ))
            invariant
                from <= j <= self.text.chars@.len(),
                word_end(self.text@, from as int) == word_end(self.text@, j as int),
            decreases self.text.chars@.len() - j,
        {
            j += 1;
        }
        j
    }

    fn digits_stop(&self, from: usize) -> (r: usize)
        requires
            self.wf(),
            from <= self.text@.len(),
        ensures
            r == digits_end(self.text@, from as int),
            from <= r <= self.text@.len(),
    {
        let mut j: usize = from;
        while j < self.text.chars.len() && digit_char(self.text.chars[j])
            invariant
                from <= j <= self.text.chars@.len(),
                digits_end(self.text@, from as int) == digits_end(self.text@, j as int),
            decreases self.text.chars@.len() - j,
        {
            j += 1;
        }
        j
    }

    fn comment(&mut self)
        requires
            old(self).wf(),
            old(self).i + 2 <= old(self).text@.len(),
        ensures
            final(self).wf(),
            final(self)@ == lex_comment(old(self)@),
    {
        let start: usize = self.i;
        let n: usize = self.text.chars.len();
        let mut j: usize = start + 2;
        while j < n && self.text.chars[j] != '\n'
            invariant
                n == self.text.chars@.len(),
                start + 2 <= j <= self.text.chars@.len(),
                *self == *old(self),
                self.wf(),
                start == self.i,
                crate::error::line_end(self.text@, start + 2) == crate::error::line_end(
                    self.text@,
                    j as int,
                ),
            decreases self.text.chars@.len() - j,
        {
            j += 1;
        }
        let span = self.span(start, j);
        self.comments.push(Comment { span });
        self.i = j;
        assert(remarks(self.comments@) =~= remarks(old(self).comments@).push(
            self.comments@.last()@,
        ));
    }

    fn attribute(&mut self)
        requires
            old(self).wf(),
            old(self).i < old(self).text@.len(),
        ensures
            final(self).wf(),
            final(self)@ == lex_attribute(old(self)@),
    {
        let start: usize = self.i;
        let n: usize = self.text.chars.len();
        assert(start < n);
        let end: usize = self.word_stop(start + 1);
        if end == start + 1 {
            self.error(
                "Attribute name is missing",
                start,
                start + 1,
                owned("`@` must be immediately followed by an attribute name, e.g. `@test`"),
            );
            self.i = end;
        } else {
            let name = self.text.slice(start + 1, end);
            self.token(TokenKind::At(name), end);
        }
    }

    /// The value of the digits from `i` to `j`, if it fits an `Int`.
    fn int_value(&self, i: usize, j: usize) -> (r: Option<i32>)
        requires
            self.wf(),
            i <= j <= self.text@.len(),
            forall|k: int| i <= k < j ==> is_digit(#[trigger] self.text@[k]),
        ensures
            match r {
                Some(v) => v == digits_value(self.text@.subrange(i as int, j as int)),
                None => digits_value(self.text@.subrange(i as int, j as int)) > i32::MAX,
            },
    {
        let ghost s = self.text@;
        let mut value: u64 = 0;
        let mut k: usize = i;
        assert(s.subrange(i as int, i as int).len() == 0);
        while k < j
            invariant
                i <= k <= j <= self.text.chars@.len(),
                s == self.text@,
                forall|m: int| i <= m < j ==> is_digit(#[trigger] s[m]),
                value <= i32::MAX,
                value == digits_value(s.subrange(i as int, k as int)),
            decreases j - k,
        {
            let d: u64 = (self.text.chars[k] as u32 - '0' as u32) as u64;
            proof {
                assert(is_digit(s[k as int]));
                let t = s.subrange(i as int, k + 1);
                assert(t.drop_last() =~= s.subrange(i as int, k as int));
                assert(t.last() == s[k as int]);
            }
            value = value * 10 + d;
            k += 1;
            if value > 2147483647 {
                proof {
                    lemma_digits_grow(s, i as int, k as int, j as int);
                }
                return None;
            }
        }
        Some(value as i32)
    }

    fn number(&mut self)
        requires
            old(self).wf(),
            old(self).i < old(self).text@.len(),
            is_digit(old(self).text@[old(self).i as int]),
        ensures
            final(self).wf(),
            final(self)@ == lex_number(old(self)@),
    {
        let start: usize = self.i;
        let n: usize = self.text.chars.len();
        assert(start < n);
        let end: usize = self.digits_stop(start + 1);
        let fraction = end < self.text.chars.len() && end + 1 < self.text.chars.len()
            && self.text.chars[end] == '.' && digit_char(self.text.chars[end + 1]);
        if fraction {
            let stop: usize = self.digits_stop(end + 1);
            let text = self.text.slice(start, stop);
            self.token(TokenKind::Float(text), stop);
        } else {
            proof {
                lemma_all_digits(self.text@, start + 1);
                assert forall|k: int| start <= k < end implies is_digit(
                    #[trigger] self.text@[k],
                ) by {}
            }
            match self.int_value(start, end) {
                Some(value) => self.token(TokenKind::Int(value), end),
                None => {
                    self.error(
                        "Integer literal is too large",
                        start,
                        end,
                        owned("does not fit in Int"),
                    );
                    self.token(TokenKind::Int(0), end);
                },
            }
        }
    }

    fn string(&mut self)
        requires
            old(self).wf(),
            old(self).i < old(self).text@.len(),
        ensures
            final(self).wf(),
            final(self)@ == lex_string(old(self)@),
    {
        let ghost st = self@;
        let start: usize = self.i;
        let n: usize = self.text.chars.len();
        assert(start < n);
        let mut j: usize = start + 1;
        let mut value = String::new();
        let mut terminated = false;
        let mut done = false;
        let ghost want = string_contents(st, st.i + 1, Seq::empty(), st.errors);
        while !done
            invariant
                self.wf(),
                st == old(self)@,
                start == st.i,
                start < st.src.len(),
                self@ == (Lexed { errors: self@.errors, ..st }),
                start + 1 <= j <= st.src.len(),
                want == string_contents(st, st.i + 1, Seq::empty(), st.errors),
                !done ==> want == string_contents(st, j as int, value@, self@.errors)
                    && !terminated,
                done ==> want == (Text { end: j as int, value: value@, errors: self@.errors, terminated }),
            decreases st.src.len() - j, (if done { 0int } else { 1int }),
        {
            if j >= self.text.chars.len() || self.text.chars[j] == '\n' {
                done = true;
            } else if self.text.chars[j] == '"' {
                j += 1;
                terminated = true;
                done = true;
            } else if self.text.chars[j] == '\\' {
                if j + 1 >= self.text.chars.len() {
                    j += 1;
                    done = true;
                } else {
                    let c: char = self.text.chars[j + 1];
                    match escape_of(c) {
                        Some(e) => value.push(e),
                        None => self.error(
                            "Unsupported string escape",
                            j,
                            j + 2,
                            escape_error(c),
                        ),
                    }
                    j += 2;
                }
            } else {
                value.push(self.text.chars[j]);
                j += 1;
            }
        }
        if !terminated {
            let span = self.span(start, start + 1);
            let e = Error::diagnostic(
                Diagnostic::new(owned("Unterminated string")).label(
                    span,
                    owned("string starts here"),
                ).help(owned("Add a closing double quote before the end of the line.")),
            );
            let ghost before = problems(self.errors@);
            self.errors.push(e);
            assert(problems(self.errors@) =~= before.push(e@));
        }
        self.token(TokenKind::String(value), j);
    }

    fn character(&mut self)
        requires
            old(self).wf(),
            old(self).i < old(self).text@.len(),
        ensures
            final(self).wf(),
            final(self)@ == lex_char(old(self)@),
    {
        let start: usize = self.i;
        let n: usize = self.text.chars.len();
        let j: usize = start + 1;
        let escaped = j < n && self.text.chars[j] == '\\';
        let named = escaped && j + 1 < n;
        let value: Option<char> = if named {
            let c: char = self.text.chars[j + 1];
            if c == '\'' {
                Some('\'')
            } else {
                escape_of(c)
            }
        } else if escaped || j >= n {
            None
        } else {
            Some(self.text.chars[j])
        };
        let after: usize = if named {
            j + 2
        } else if j < n {
            j + 1
        } else {
            j
        };
        let closed = after < n && self.text.chars[after] == '\'';
        let end: usize = if closed {
            after + 1
        } else {
            after
        };
        if named && value.is_none() {
            let message = escape_error(self.text.chars[j + 1]);
            self.error("Unsupported character escape", j, j + 2, message);
        } else if value.is_none() || !closed {
            self.error(
                "Invalid character literal",
                start,
                end,
                owned("a character literal holds exactly one character, e.g. `'a'`"),
            );
        }
        let c: char = match value {
            Some(c) => c,
            None => '\0',
        };
        self.token(TokenKind::Char(c), end);
    }

    fn word(&mut self)
        requires
            old(self).wf(),
            old(self).i < old(self).text@.len(),
        ensures
            final(self).wf(),
            final(self)@ == lex_word(old(self)@),
    {
        let start: usize = self.i;
        let n: usize = self.text.chars.len();
        assert(start < n);
        let end: usize = self.word_stop(start + 1);
        let text = self.text.slice(start, end);
        let kind = keyword_or_name(text.as_str());
        self.token(kind, end);
    }

    fn unknown(&mut self)
        requires
            old(self).wf(),
            old(self).i < old(self).text@.len(),
        ensures
            final(self).wf(),
            final(self)@ == lex_unknown(old(self)@),
    {
        let start: usize = self.i;
        let n: usize = self.text.chars.len();
        assert(start < n);
        let mut message = owned("unexpected character `");
        message.push(self.text.chars[start]);
        message.push_str("`");
        self.error("Unexpected character", start, start + 1, message);
        self.i = start + 1;
    }

    fn step(&mut self)
        requires
            old(self).wf(),
            old(self).i < old(self).text@.len(),
        ensures
            final(self).wf(),
            final(self)@ == lex_step(old(self)@),
    {
        let c: char = self.text.chars[self.i];
        let n: usize = self.text.chars.len();
        assert(self.i < n);
        let has_next = self.i + 1 < n;
        let next: char = if has_next {
            self.text.chars[self.i + 1]
        } else {
            ' '
        };
        let pair = if has_next {
            pair_token(c, next)
        } else {
            None
        };
        let blank_newline = c == '\n' && self.brackets.len() > 0 && (self.brackets[self.brackets.len()
            - 1] == '(' || self.brackets[self.brackets.len() - 1] == '[');
        if c == ' ' || c == '\t' || c == '\r' || blank_newline {
            self.i = self.i + 1;
        } else if c == '\n' {
            self.token(TokenKind::Newline, self.i + 1);
        } else if c == '-' && has_next && next == '-' {
            self.comment();
        } else if let Some(kind) = pair {
            self.token(kind, self.i + 2);
        } else if let Some(kind) = opener_token(c) {
            self.brackets.push(c);
            self.token(kind, self.i + 1);
        } else if let Some(kind) = closer_token(c) {
            let ghost open = self.brackets@;
            let _popped = self.brackets.pop();
            assert(open.len() > 0 ==> self.brackets@ =~= open.drop_last());
            assert(open.len() == 0 ==> self.brackets@ =~= open);
            self.token(kind, self.i + 1);
        } else if let Some(kind) = single_token(c) {
            self.token(kind, self.i + 1);
        } else if c == '@' {
            self.attribute();
        } else if digit_char(c) {
            self.number();
        } else if c == '"' {
            self.string();
        } else if c == '\'' {
            self.character();
        } else if word_start(c) {
            self.word();
        } else {
            self.unknown();
        }
    }
}

proof fn lemma_all_digits(s: Seq<char>, i: int)
    requires
        0 <= i <= s.len(),
    ensures
        forall|k: int| i <= k < digits_end(s, i) ==> is_digit(#[trigger] s[k]),
    decreases s.len() - i,
{
    if i < s.len() && is_digit(s[i]) {
        lemma_all_digits(s, i + 1);
    }
}

proof fn lemma_digits_grow(s: Seq<char>, i: int, k: int, j: int)
    requires
        0 <= i <= k <= j <= s.len(),
    ensures
        digits_value(s.subrange(i, k)) <= digits_value(s.subrange(i, j)),
    decreases j - k,
{
    if k < j {
        lemma_digits_grow(s, i, k, j - 1);
        assert(s.subrange(i, j).drop_last() =~= s.subrange(i, j - 1));
    }
}

fn lex_with_file(source: &str, file: Arc<SourceFile>) -> (r: (
    Vec<Token>,
    Vec<Comment>,
    Vec<Error>,
))
    requires
        file.source@ == source@,
    ensures
        tokens_point_into(r.0@, file.label@, source@),
        comments_point_into(r.1@, file.label@, source@),
        toks(r.0@) == tokens_of(file.label@, source@),
        remarks(r.1@) == lexed(file.label@, source@).comments,
        problems(r.2@) == lexed(file.label@, source@).errors,
{
    let text = SourceText::new(source);
    let total: usize = text.at(text.chars.len());
    let mut lexer = Lexer {
        text,
        file: share(&file),
        i: 0,
        brackets: Vec::new(),
        tokens: Vec::new(),
        comments: Vec::new(),
        errors: Vec::new(),
    };
    let ghost start = lex_start(file.label@, source@);
    proof {
        assert(toks(lexer.tokens@) =~= Seq::<Tok>::empty());
        assert(remarks(lexer.comments@) =~= Seq::<Remark>::empty());
        assert(problems(lexer.errors@) =~= Seq::<Problem>::empty());
        assert(lexer@ =~= start);
    }
    while lexer.i < lexer.text.chars.len()
        invariant
            lexer.wf(),
            lexer@.src == source@,
            lexer@.label == file.label@,
            start == lex_start(file.label@, source@),
            lex_rest(start) == lex_rest(lexer@),
        decreases source@.len() - lexer.i,
    {
        proof {
            lex_step_advances(lexer@);
        }
        lexer.step();
    }
    let ghost done = lexer@.tokens;
    lexer.tokens.push(Token { kind: TokenKind::Eof, span: Span::point(file, total) });
    assert(toks(lexer.tokens@) =~= done.push(lexer.tokens@.last()@));
    assert(lexer.tokens@.last()@ =~= eof_token(source@));
    (lexer.tokens, lexer.comments, lexer.errors)
}

/// Lexes `source`, collecting every error instead of stopping at the first.
pub fn lex(label: &str, source: &str) -> (r: (Vec<Token>, Vec<Error>))
    ensures
        toks(r.0@) == tokens_of(label@, source@),
        tokens_point_into(r.0@, label@, source@),
        problems(r.1@) == lexed(label@, source@).errors,
{
    let file = source_file(label, source);
    let (tokens, _comments, errors) = lex_with_file(source, file);
    (tokens, errors)
}

/// Like `lex`, but additionally collects every comment. The token stream is
/// identical to `lex`'s. Formatting requires a clean lex, so the first
/// collected error is surfaced.
pub fn lex_with_comments(label: &str, source: &str) -> (r: Result<
    (Vec<Token>, Vec<Comment>),
    Error,
>)
    ensures
        match r {
            Ok((tokens, comments)) => {
                &&& lexed(label@, source@).errors.len() == 0
                &&& toks(tokens@) == tokens_of(label@, source@)
                &&& remarks(comments@) == lexed(label@, source@).comments
                &&& tokens_point_into(tokens@, label@, source@)
                &&& comments_point_into(comments@, label@, source@)
            },
            Err(e) => {
                &&& lexed(label@, source@).errors.len() > 0
                &&& e@ == lexed(label@, source@).errors[0]
            },
        },
{
    let file = source_file(label, source);
    let (tokens, comments, errors) = lex_with_file(source, file);
    let ghost all = problems(errors@);
    assert(all.len() == errors@.len());
    let mut rest = errors;
    if rest.len() > 0 {
        assert(all[0] == rest@[0]@);
        let first = rest.remove(0);
        return Err(first);
    }
    Ok((tokens, comments))
}

} // verus!
