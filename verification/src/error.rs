//! Errors and diagnostics.

use vstd::prelude::*;

use crate::backend::BackendError;
use crate::ir::opt_text;
use crate::source::{byte_len, char_index, Extent, SourceText, Span};
use crate::strings::{
    before, chars_of, decimal, owned, push_decimal, push_repeated, repeated, same, text_lt,
    text_lt_irreflexive, text_lt_total, text_lt_transitive,
};

verus! {

/// Diagnostic severity: compiler errors are `Error`; lint findings are
/// `Warning`.
#[derive(Debug, Clone, Copy, PartialEq, Eq, Structural)]
pub enum Severity {
    Error,
    Warning,
}

/// A message that points at a place in a source file.
#[derive(Debug)]
pub struct Label {
    pub span: Span,
    pub message: String,
}

#[derive(Debug)]
pub struct Diagnostic {
    pub title: String,
    pub severity: Severity,
    /// The lint rule id, e.g. `naming/snake-case`. Rendered after the title;
    /// `None` for compiler errors.
    pub code: Option<String>,
    pub primary: Option<Label>,
    pub help: Option<String>,
}

/// What went wrong: a one-line message, with a diagnostic when there is a place
/// to point at.
#[derive(Debug)]
pub struct Error {
    pub message: String,
    pub diagnostic: Option<Box<Diagnostic>>,
}

/// What a [`Label`] says.
#[verifier::ext_equal]
pub struct Mark {
    pub span: Extent,
    pub message: Seq<char>,
}

/// What a [`Diagnostic`] says.
#[verifier::ext_equal]
pub struct Report {
    pub title: Seq<char>,
    pub severity: Severity,
    pub code: Option<Seq<char>>,
    pub primary: Option<Mark>,
    pub help: Option<Seq<char>>,
}

/// What an [`Error`] says.
#[verifier::ext_equal]
pub struct Problem {
    pub message: Seq<char>,
    pub report: Option<Report>,
}

impl Label {
    pub open spec fn view(&self) -> Mark {
        Mark { span: self.span@, message: self.message@ }
    }
}

impl Diagnostic {
    pub open spec fn view(&self) -> Report {
        Report {
            title: self.title@,
            severity: self.severity,
            code: opt_text(self.code),
            primary: match self.primary {
                Some(l) => Some(l@),
                None => None,
            },
            help: opt_text(self.help),
        }
    }
}

impl Error {
    pub open spec fn view(&self) -> Problem {
        Problem {
            message: self.message@,
            report: match self.diagnostic {
                Some(d) => Some(d@),
                None => None,
            },
        }
    }
}

/// What a list of errors says.
pub open spec fn problems(s: Seq<Error>) -> Seq<Problem> {
    s.map_values(|e: Error| e@)
}

/// What a list of diagnostics says.
pub open spec fn reports(s: Seq<Diagnostic>) -> Seq<Report> {
    s.map_values(|d: Diagnostic| d@)
}

/// An error without a place.
pub open spec fn plain(message: Seq<char>) -> Problem {
    Problem { message, report: None }
}

/// An error at a place.
pub open spec fn located(title: Seq<char>, span: Extent, message: Seq<char>, help: Option<Seq<char>>) -> Problem {
    Problem {
        message: title,
        report: Some(
            Report {
                title,
                severity: Severity::Error,
                code: None,
                primary: Some(Mark { span, message }),
                help,
            },
        ),
    }
}

/// Whether a character is white space: Unicode's `White_Space` property.
pub open spec fn is_white(c: char) -> bool {
    let n = c as int;
    9 <= n <= 13 || n == 32 || n == 0x85 || n == 0xA0 || n == 0x1680 || 0x2000 <= n <= 0x200A
        || n == 0x2028 || n == 0x2029 || n == 0x202F || n == 0x205F || n == 0x3000
}

/// A text without the white space at its end.
pub open spec fn trimmed_end(s: Seq<char>) -> Seq<char>
    decreases s.len(),
{
    if s.len() > 0 && is_white(s.last()) {
        trimmed_end(s.drop_last())
    } else {
        s
    }
}

/// Whether a character is white space.
pub fn is_white_space(c: char) -> (r: bool)
    ensures
        r == is_white(c),
{
    let n: u32 = c as u32;
    (9 <= n && n <= 13) || n == 32 || n == 0x85 || n == 0xA0 || n == 0x1680 || (0x2000 <= n && n
        <= 0x200A) || n == 0x2028 || n == 0x2029 || n == 0x202F || n == 0x205F || n == 0x3000
}

/// `s` without the white space at its end.
pub fn trim_end(s: &str) -> (r: String)
    ensures
        r@ == trimmed_end(s@),
{
    let text = SourceText::new(s);
    let mut end: usize = text.chars.len();
    assert(s@.take(end as int) =~= s@);
    while end > 0 && is_white_space(text.chars[end - 1])
        invariant
            end <= text.chars@.len(),
            text@ == s@,
            trimmed_end(s@) == trimmed_end(s@.take(end as int)),
        decreases end,
    {
        assert(s@.take(end as int).drop_last() =~= s@.take(end - 1));
        end -= 1;
    }
    assert(s@.take(end as int) =~= s@.subrange(0, end as int));
    text.slice(0, end)
}

/// The index just after the last newline of `s` before index `i`.
pub open spec fn line_start(s: Seq<char>, i: int) -> int
    decreases i,
{
    if i <= 0 {
        0
    } else if s[i - 1] == '\n' {
        i
    } else {
        line_start(s, i - 1)
    }
}

/// The index of the first newline of `s` at or after index `i`, or the end.
pub open spec fn line_end(s: Seq<char>, i: int) -> int
    decreases s.len() - i,
{
    if i >= s.len() {
        s.len() as int
    } else if s[i] == '\n' {
        i
    } else {
        line_end(s, i + 1)
    }
}

/// How many newlines stand before index `i`.
pub open spec fn newlines(s: Seq<char>, i: int) -> nat
    decreases i,
{
    if i <= 0 {
        0
    } else {
        newlines(s, i - 1) + if s[i - 1] == '\n' {
            1nat
        } else {
            0
        }
    }
}

/// Where a span starts: the line, the characters before it on the line, and the
/// text of the line.
#[verifier::ext_equal]
pub struct Place {
    pub line: nat,
    pub column0: nat,
    pub text: Seq<char>,
}

/// The place of a span. A start past the end of the file counts as the end.
pub open spec fn place(span: Extent) -> Place {
    let s = span.source;
    let i = char_index(s, span.start) as int;
    let start = line_start(s, i);
    Place {
        line: newlines(s, start) + 1,
        column0: (i - start) as nat,
        text: s.subrange(start, line_end(s, i)),
    }
}

/// How many carets underline a span.
pub open spec fn underline(span: Extent) -> nat {
    let p = place(span);
    let want = if span.end > span.start + 1 {
        (span.end - span.start) as nat
    } else {
        1
    };
    let room = if byte_len(p.text) > p.column0 + 1 {
        (byte_len(p.text) - p.column0) as nat
    } else {
        1
    };
    if want < room {
        want
    } else {
        room
    }
}

/// `out` followed by the rendering of a label: the place, the source line and
/// an underline with the message.
pub open spec fn label_text(out: Seq<char>, m: Mark) -> Seq<char> {
    let p = place(m.span);
    let line = decimal(p.line);
    let margin = repeated(" "@, line.len());
    out + "  --> "@ + m.span.label + ":"@ + line + ":"@ + decimal(p.column0 + 1) + "\n"@ + margin
        + " |\n"@ + line + " | "@ + p.text + "\n"@ + margin + " | "@ + repeated(" "@, p.column0)
        + repeated("^"@, underline(m.span)) + " "@ + m.message + "\n"@
}

/// The rendering of a diagnostic.
pub open spec fn report_text(d: Report) -> Seq<char> {
    let severity = match d.severity {
        Severity::Error => "error"@,
        Severity::Warning => "warning"@,
    };
    let head = severity + ": "@ + d.title;
    let titled = match d.code {
        Some(code) => head + " ["@ + code + "]\n"@,
        None => head + "\n"@,
    };
    let labelled = match d.primary {
        Some(m) => label_text(titled + "\n"@, m),
        None => titled,
    };
    trimmed_end(
        match d.help {
            Some(help) => labelled + "\n"@ + "Hint: "@ + help + "\n"@,
            None => labelled,
        },
    )
}

/// The rendering of an error: its diagnostic, or its message.
pub open spec fn problem_text(e: Problem) -> Seq<char> {
    match e.report {
        Some(d) => report_text(d),
        None => e.message,
    }
}

struct LineLocation {
    line: u64,
    column0: usize,
    line_text: String,
}

fn line_location(span: &Span) -> (r: LineLocation)
    ensures
        r.line == place(span@).line,
        r.column0 == place(span@).column0,
        r.line_text@ == place(span@).text,
        r.column0 < u64::MAX,
{
    let text = SourceText::new(span.file.source.as_str());
    let ghost s = span.file.source@;
    let i: usize = text.index_of(span.start);
    let mut start: usize = i;
    while start > 0 && text.chars[start - 1] != '\n'
        invariant
            start <= i <= text.chars@.len(),
            text@ == s,
            line_start(s, i as int) == line_start(s, start as int),
        decreases start,
    {
        start -= 1;
    }
    let mut end: usize = i;
    while end < text.chars.len() && text.chars[end] != '\n'
        invariant
            i <= end <= text.chars@.len(),
            text@ == s,
            line_end(s, i as int) == line_end(s, end as int),
        decreases text.chars@.len() - end,
    {
        end += 1;
    }
    let mut line: u64 = 0;
    let mut k: usize = 0;
    while k < start
        invariant
            k <= start <= text.chars@.len(),
            text@ == s,
            line == newlines(s, k as int),
            line <= k,
        decreases start - k,
    {
        if text.chars[k] == '\n' {
            line += 1;
        }
        k += 1;
    }
    proof {
        assert(i <= text.chars@.len());
        assert(text.offsets@.len() == text.chars@.len() + 1);
        assert(text.offsets.len() <= usize::MAX);
    }
    LineLocation { line: line + 1, column0: i - start, line_text: text.slice(start, end) }
}

fn byte_length(s: &str) -> (r: usize)
    ensures
        r == byte_len(s@),
{
    let text = SourceText::new(s);
    text.at(text.chars.len())
}

fn push_label(out: &mut String, label: &Label)
    ensures
        final(out)@ == label_text(old(out)@, label@),
{
    let location = line_location(&label.span);
    let mut line = String::new();
    push_decimal(&mut line, location.line);
    assert(line@ =~= decimal(place(label.span@).line));
    let digits: usize = count_chars(line.as_str());
    let want: usize = if label.span.end > label.span.start && label.span.end - label.span.start > 1 {
        label.span.end - label.span.start
    } else {
        1
    };
    let length: usize = byte_length(location.line_text.as_str());
    let room: usize = if length > location.column0 && length - location.column0 > 1 {
        length - location.column0
    } else {
        1
    };
    let carets: usize = if want < room {
        want
    } else {
        room
    };
    out.push_str("  --> ");
    out.push_str(label.span.file.label.as_str());
    out.push_str(":");
    out.push_str(line.as_str());
    out.push_str(":");
    push_decimal(out, location.column0 as u64 + 1);
    out.push_str("\n");
    push_repeated(out, " ", digits);
    out.push_str(" |\n");
    out.push_str(line.as_str());
    out.push_str(" | ");
    out.push_str(location.line_text.as_str());
    out.push_str("\n");
    push_repeated(out, " ", digits);
    out.push_str(" | ");
    push_repeated(out, " ", location.column0);
    push_repeated(out, "^", carets);
    out.push_str(" ");
    out.push_str(label.message.as_str());
    out.push_str("\n");
}

/// How many characters `s` has.
pub fn count_chars(s: &str) -> (r: usize)
    ensures
        r == s@.len(),
{
    chars_of(s).len()
}

impl Diagnostic {
    /// A compiler error titled `title`.
    pub fn new(title: String) -> (r: Diagnostic)
        ensures
            r@ == (Report {
                title: title@,
                severity: Severity::Error,
                code: None,
                primary: None,
                help: None,
            }),
    {
        Diagnostic { title, severity: Severity::Error, code: None, primary: None, help: None }
    }

    /// A lint finding of the rule `code` at a place.
    pub fn warning(title: String, code: &str, span: Span, message: String, help: Option<String>) -> (r:
        Diagnostic)
        ensures
            r@ == (Report {
                title: title@,
                severity: Severity::Warning,
                code: Some(code@),
                primary: Some(Mark { span: span@, message: message@ }),
                help: opt_text(help),
            }),
    {
        Diagnostic {
            title,
            severity: Severity::Warning,
            code: Some(owned(code)),
            primary: Some(Label { span, message }),
            help,
        }
    }

    /// The diagnostic with its primary label.
    pub fn label(self, span: Span, message: String) -> (r: Diagnostic)
        ensures
            r@ == (Report { primary: Some(Mark { span: span@, message: message@ }), ..self@ }),
    {
        let mut d = self;
        d.primary = Some(Label { span, message });
        d
    }

    /// The diagnostic with a hint.
    pub fn help(self, help: String) -> (r: Diagnostic)
        ensures
            r@ == (Report { help: Some(help@), ..self@ }),
    {
        let mut d = self;
        d.help = Some(help);
        d
    }

    /// The diagnostic as text.
    pub fn render(&self) -> (r: String)
        ensures
            r@ == report_text(self@),
    {
        let mut out = match self.severity {
            Severity::Error => owned("error"),
            Severity::Warning => owned("warning"),
        };
        out.push_str(": ");
        out.push_str(self.title.as_str());
        match &self.code {
            Some(code) => {
                out.push_str(" [");
                out.push_str(code.as_str());
                out.push_str("]\n");
            },
            None => out.push_str("\n"),
        }
        if let Some(label) = &self.primary {
            out.push_str("\n");
            push_label(&mut out, label);
        }
        if let Some(help) = &self.help {
            out.push_str("\n");
            out.push_str("Hint: ");
            out.push_str(help.as_str());
            out.push_str("\n");
        }
        trim_end(out.as_str())
    }
}

fn copy_text(text: &Option<String>) -> (r: Option<String>)
    ensures
        opt_text(r) == opt_text(*text),
{
    match text {
        Some(t) => Some(owned(t.as_str())),
        None => None,
    }
}

impl Diagnostic {
    /// A copy of the diagnostic.
    pub fn copy(&self) -> (r: Diagnostic)
        ensures
            r@ == self@,
    {
        let primary = match &self.primary {
            Some(l) => Some(Label { span: l.span.copy(), message: owned(l.message.as_str()) }),
            None => None,
        };
        Diagnostic {
            title: owned(self.title.as_str()),
            severity: self.severity,
            code: copy_text(&self.code),
            primary,
            help: copy_text(&self.help),
        }
    }
}

impl Error {
    /// A copy of the error.
    pub fn copy(&self) -> (r: Error)
        ensures
            r@ == self@,
    {
        let diagnostic = match &self.diagnostic {
            Some(d) => Some(Box::new(d.copy())),
            None => None,
        };
        Error { message: owned(self.message.as_str()), diagnostic }
    }

    /// An error without a place.
    pub fn new(message: String) -> (r: Error)
        ensures
            r@ == plain(message@),
    {
        Error { message, diagnostic: None }
    }

    /// An error whose message is the title of its diagnostic.
    pub fn diagnostic(diagnostic: Diagnostic) -> (r: Error)
        ensures
            r@ == (Problem { message: diagnostic@.title, report: Some(diagnostic@) }),
    {
        Error { message: diagnostic.title.clone(), diagnostic: Some(Box::new(diagnostic)) }
    }

    /// An error at a place.
    pub fn at(title: &str, span: Span, message: String) -> (r: Error)
        ensures
            r@ == located(title@, span@, message@, None),
    {
        Error::diagnostic(Diagnostic::new(owned(title)).label(span, message))
    }

    /// The error as text.
    pub fn render(&self) -> (r: String)
        ensures
            r@ == problem_text(self@),
    {
        match &self.diagnostic {
            Some(d) => d.render(),
            None => self.message.clone(),
        }
    }

    /// The one-line message: the diagnostic title when there is one.
    pub fn message(&self) -> (r: &str)
        ensures
            r@ == self@.message,
    {
        self.message.as_str()
    }

    /// An error of a backend, as text.
    pub fn from_backend(err: &BackendError) -> (r: Error)
        ensures
            r@ == plain(
                crate::backend::error_text(
                    err.message@,
                    crate::strings::texts(err.diagnostics@),
                ),
            ),
    {
        Error::new(err.to_string())
    }
}

/// What tells collected errors apart: where they are and what they say. An error
/// without a place comes before all places.
#[verifier::ext_equal]
pub struct Key {
    pub label: Seq<char>,
    pub start: nat,
    pub end: nat,
    pub message: Seq<char>,
    pub note: Seq<char>,
}

/// The place that an error points at.
pub open spec fn primary_of(e: Problem) -> Option<Mark> {
    match e.report {
        Some(d) => d.primary,
        None => None,
    }
}

/// The key of an error.
pub open spec fn key_of(e: Problem) -> Key {
    match primary_of(e) {
        Some(m) => Key {
            label: m.span.label,
            start: m.span.start,
            end: m.span.end,
            message: e.message,
            note: m.message,
        },
        None => Key {
            label: Seq::empty(),
            start: 0,
            end: 0,
            message: e.message,
            note: Seq::empty(),
        },
    }
}

/// Whether an error belongs before another: by file, then by place, then by
/// message.
pub open spec fn belongs_before(a: Problem, b: Problem) -> bool {
    let (x, y) = (key_of(a), key_of(b));
    if x.label != y.label {
        text_lt(x.label, y.label)
    } else if x.start != y.start {
        x.start < y.start
    } else if x.end != y.end {
        x.end < y.end
    } else {
        text_lt(x.message, y.message)
    }
}

/// Where among the first `n` sorted errors the error `e` goes: behind all that it
/// does not belong before.
pub open spec fn slot(s: Seq<Problem>, e: Problem, n: nat) -> nat
    decreases n,
{
    if n > 0 && belongs_before(e, s[n - 1]) {
        slot(s, e, (n - 1) as nat)
    } else {
        n
    }
}

/// Errors in order. Those that belong at one place stay in their order.
pub open spec fn in_source_order(s: Seq<Problem>) -> Seq<Problem>
    decreases s.len(),
{
    if s.len() == 0 {
        Seq::empty()
    } else {
        let rest = in_source_order(s.drop_last());
        rest.insert(slot(rest, s.last(), rest.len()) as int, s.last())
    }
}

/// Whether one of some errors has a key.
pub open spec fn has_key(s: Seq<Problem>, k: Key) -> bool {
    exists|i: int| 0 <= i < s.len() && key_of(#[trigger] s[i]) == k
}

/// Errors without those that have the key of an earlier one.
pub open spec fn distinct(s: Seq<Problem>) -> Seq<Problem>
    decreases s.len(),
{
    if s.len() == 0 {
        Seq::empty()
    } else {
        let rest = distinct(s.drop_last());
        if has_key(rest, key_of(s.last())) {
            rest
        } else {
            rest.push(s.last())
        }
    }
}

/// Collected errors, by source position and without duplicates.
pub open spec fn normalized(s: Seq<Problem>) -> Seq<Problem> {
    distinct(in_source_order(s))
}

/// Whether no error belongs before one that it follows.
pub open spec fn is_ordered(s: Seq<Problem>) -> bool {
    forall|i: int, j: int| 0 <= i < j < s.len() ==> !belongs_before(#[trigger] s[j], #[trigger] s[i])
}

proof fn text_chain(a: Seq<char>, b: Seq<char>, c: Seq<char>)
    ensures
        text_lt(a, b) && text_lt(b, c) ==> text_lt(a, c),
{
    if text_lt(a, b) && text_lt(b, c) {
        text_lt_transitive(a, b, c);
    }
}

/// How three texts can be ordered.
proof fn text_order(a: Seq<char>, b: Seq<char>, c: Seq<char>)
    ensures
        text_lt(a, b) ==> !text_lt(b, a),
        text_lt(b, c) ==> !text_lt(c, b),
        text_lt(a, c) ==> !text_lt(c, a),
        text_lt(a, b) && text_lt(b, c) ==> text_lt(a, c),
        text_lt(c, b) && text_lt(b, a) ==> text_lt(c, a),
        text_lt(c, a) && text_lt(a, b) ==> text_lt(c, b),
        text_lt(b, a) && text_lt(a, c) ==> text_lt(b, c),
{
    text_chain(a, b, a);
    text_chain(b, c, b);
    text_chain(a, c, a);
    text_chain(a, b, c);
    text_chain(c, b, a);
    text_chain(c, a, b);
    text_chain(b, a, c);
    text_lt_irreflexive(a);
    text_lt_irreflexive(b);
    text_lt_irreflexive(c);
}

/// The order is a strict order of keys: what does not belong before, and is not
/// followed by, belongs at the same place.
pub proof fn belongs_before_is_transitive(a: Problem, b: Problem, c: Problem)
    ensures
        belongs_before(a, b) ==> !belongs_before(b, a),
        belongs_before(a, b) && belongs_before(b, c) ==> belongs_before(a, c),
        !belongs_before(b, a) && !belongs_before(c, b) ==> !belongs_before(c, a),
{
    let (x, y, z) = (key_of(a), key_of(b), key_of(c));
    text_lt_total(x.label, y.label);
    text_lt_total(y.label, z.label);
    text_lt_total(x.label, z.label);
    text_lt_total(x.message, y.message);
    text_lt_total(y.message, z.message);
    text_lt_total(x.message, z.message);
    text_lt_irreflexive(x.label);
    text_lt_irreflexive(x.message);
    text_lt_irreflexive(y.label);
    text_lt_irreflexive(y.message);
    text_lt_irreflexive(z.label);
    text_lt_irreflexive(z.message);
    text_order(x.label, y.label, z.label);
    text_order(x.message, y.message, z.message);
}

proof fn slot_splits(s: Seq<Problem>, e: Problem, n: nat)
    requires
        n <= s.len(),
        is_ordered(s),
    ensures
        slot(s, e, n) <= n,
        forall|i: int| slot(s, e, n) <= i < n ==> belongs_before(e, #[trigger] s[i]),
        forall|i: int| 0 <= i < slot(s, e, n) ==> !belongs_before(e, #[trigger] s[i]),
    decreases n,
{
    if n > 0 && belongs_before(e, s[n - 1]) {
        slot_splits(s, e, (n - 1) as nat);
    } else if n > 0 {
        assert forall|i: int| 0 <= i < n implies !belongs_before(e, #[trigger] s[i]) by {
            if i < n - 1 {
                assert(!belongs_before(s[n - 1], s[i]));
                belongs_before_is_transitive(s[i], s[n - 1], e);
            }
        }
    }
}

proof fn sorting_orders(s: Seq<Problem>)
    ensures
        is_ordered(in_source_order(s)),
        in_source_order(s).to_multiset() =~= s.to_multiset(),
        in_source_order(s).len() == s.len(),
    decreases s.len(),
{
    broadcast use vstd::seq_lib::group_to_multiset_ensures;

    if s.len() > 0 {
        sorting_orders(s.drop_last());
        let rest = in_source_order(s.drop_last());
        let e = s.last();
        let k = slot(rest, e, rest.len()) as int;
        slot_splits(rest, e, rest.len());
        let all = rest.insert(k, e);
        assert forall|i: int, j: int| 0 <= i < j < all.len() implies !belongs_before(
            #[trigger] all[j],
            #[trigger] all[i],
        ) by {
            belongs_before_is_transitive(all[i], all[j], e);
            belongs_before_is_transitive(all[j], all[i], e);
            if j < k {
                assert(all[i] == rest[i] && all[j] == rest[j]);
            } else if i < k && j > k {
                assert(all[i] == rest[i] && all[j] == rest[j - 1]);
            } else if i < k {
                assert(all[i] == rest[i]);
            } else if i == k {
                assert(all[j] == rest[j - 1]);
            } else {
                assert(all[i] == rest[i - 1] && all[j] == rest[j - 1]);
            }
        }
        assert(s =~= s.drop_last().push(e));
    }
}

proof fn distinct_keeps(s: Seq<Problem>)
    requires
        is_ordered(s),
    ensures
        is_ordered(distinct(s)),
        forall|i: int, j: int|
            0 <= i < j < distinct(s).len() ==> key_of(#[trigger] distinct(s)[i]) != key_of(
                #[trigger] distinct(s)[j],
            ),
        forall|i: int| 0 <= i < distinct(s).len() ==> s.contains(#[trigger] distinct(s)[i]),
        forall|i: int| 0 <= i < s.len() ==> has_key(distinct(s), key_of(#[trigger] s[i])),
    decreases s.len(),
{
    if s.len() > 0 {
        let front = s.drop_last();
        distinct_keeps(front);
        let rest = distinct(front);
        let all = distinct(s);
        assert forall|i: int| 0 <= i < rest.len() implies s.contains(#[trigger] rest[i]) by {
            let k = choose|k: int| 0 <= k < front.len() && front[k] == rest[i];
            assert(s[k] == rest[i]);
        }
        if has_key(rest, key_of(s.last())) {
        } else {
            assert(all == rest.push(s.last()));
            assert forall|i: int| 0 <= i < rest.len() implies !belongs_before(
                s.last(),
                #[trigger] rest[i],
            ) by {
                let k = choose|k: int| 0 <= k < front.len() && front[k] == rest[i];
                assert(s[k] == rest[i]);
            }
            assert(all[rest.len() as int] == s.last());
            assert forall|i: int| 0 <= i < s.len() implies has_key(
                all,
                key_of(#[trigger] s[i]),
            ) by {
                if i < front.len() {
                    assert(front[i] == s[i]);
                    let k = choose|k: int|
                        0 <= k < rest.len() && key_of(#[trigger] rest[k]) == key_of(s[i]);
                    assert(all[k] == rest[k]);
                }
            }
            assert(s.contains(s.last()));
        }
        assert forall|i: int| 0 <= i < s.len() implies has_key(all, key_of(#[trigger] s[i])) by {
            if i < front.len() {
                assert(front[i] == s[i]);
            }
        }
    }
}

/// Normalized errors are in source order, no two of them are the same, each is
/// one of those collected, and each of those collected is there.
pub proof fn normalized_errors_are_ordered_and_distinct(s: Seq<Problem>)
    ensures
        is_ordered(normalized(s)),
        forall|i: int, j: int|
            0 <= i < j < normalized(s).len() ==> key_of(#[trigger] normalized(s)[i]) != key_of(
                #[trigger] normalized(s)[j],
            ),
        forall|i: int| 0 <= i < normalized(s).len() ==> s.contains(#[trigger] normalized(s)[i]),
        forall|i: int| 0 <= i < s.len() ==> has_key(normalized(s), key_of(#[trigger] s[i])),
{
    broadcast use vstd::seq_lib::group_to_multiset_ensures;

    let sorted = in_source_order(s);
    sorting_orders(s);
    distinct_keeps(sorted);
    assert forall|i: int| 0 <= i < normalized(s).len() implies s.contains(
        #[trigger] normalized(s)[i],
    ) by {
        let e = normalized(s)[i];
        assert(sorted.contains(e));
        assert(sorted.to_multiset().count(e) > 0);
        assert(s.to_multiset().count(e) > 0);
    }
    assert forall|i: int| 0 <= i < s.len() implies has_key(
        normalized(s),
        key_of(#[trigger] s[i]),
    ) by {
        assert(s.contains(s[i]));
        assert(s.to_multiset().count(s[i]) > 0);
        assert(sorted.contains(s[i]));
        let k = choose|k: int| 0 <= k < sorted.len() && sorted[k] == s[i];
        assert(key_of(sorted[k]) == key_of(s[i]));
    }
}

/// The primary label of an error.
fn primary(e: &Error) -> (r: Option<&Label>)
    ensures
        match r {
            Some(l) => Some(l@),
            None => None,
        } == primary_of(e@),
{
    match &e.diagnostic {
        Some(d) => match &d.primary {
            Some(l) => Some(l),
            None => None,
        },
        None => None,
    }
}

fn goes_before(a: &Error, b: &Error) -> (r: bool)
    ensures
        r == belongs_before(a@, b@),
{
    let (la, sa, ea): (&str, usize, usize) = match primary(a) {
        Some(l) => (l.span.file.label.as_str(), l.span.start, l.span.end),
        None => ("", 0, 0),
    };
    let (lb, sb, eb): (&str, usize, usize) = match primary(b) {
        Some(l) => (l.span.file.label.as_str(), l.span.start, l.span.end),
        None => ("", 0, 0),
    };
    proof {
        reveal_strlit("");
        assert(""@ =~= Seq::<char>::empty());
    }
    if !same(la, lb) {
        before(la, lb)
    } else if sa != sb {
        sa < sb
    } else if ea != eb {
        ea < eb
    } else {
        before(a.message.as_str(), b.message.as_str())
    }
}

fn same_key(a: &Error, b: &Error) -> (r: bool)
    ensures
        r == (key_of(a@) == key_of(b@)),
{
    let (la, sa, ea, na): (&str, usize, usize, &str) = match primary(a) {
        Some(l) => (l.span.file.label.as_str(), l.span.start, l.span.end, l.message.as_str()),
        None => ("", 0, 0, ""),
    };
    let (lb, sb, eb, nb): (&str, usize, usize, &str) = match primary(b) {
        Some(l) => (l.span.file.label.as_str(), l.span.start, l.span.end, l.message.as_str()),
        None => ("", 0, 0, ""),
    };
    proof {
        reveal_strlit("");
        assert(""@ =~= Seq::<char>::empty());
    }
    same(la, lb) && sa == sb && ea == eb && same(na, nb) && same(
        a.message.as_str(),
        b.message.as_str(),
    )
}

fn find_slot(s: &Vec<Error>, e: &Error) -> (r: usize)
    ensures
        r == slot(problems(s@), e@, s@.len()),
        r <= s@.len(),
{
    let ghost all = problems(s@);
    let mut n: usize = s.len();
    while n > 0
        invariant
            n <= s.len(),
            all == problems(s@),
            slot(all, e@, s@.len()) == slot(all, e@, n as nat),
        decreases n,
    {
        assert(all[n - 1] == s@[n - 1]@);
        if !goes_before(e, &s[n - 1]) {
            return n;
        }
        n -= 1;
    }
    n
}

fn holds_key(s: &Vec<Error>, e: &Error) -> (r: bool)
    ensures
        r == has_key(problems(s@), key_of(e@)),
{
    let ghost all = problems(s@);
    let mut i: usize = 0;
    while i < s.len()
        invariant
            i <= s.len(),
            all == problems(s@),
            forall|k: int| 0 <= k < i ==> key_of(#[trigger] all[k]) != key_of(e@),
        decreases s.len() - i,
    {
        assert(all[i as int] == s@[i as int]@);
        if same_key(&s[i], e) {
            return true;
        }
        i += 1;
    }
    false
}

/// Sorts collected errors by source position and drops duplicates: parser
/// recovery and partial registration can surface the same error through more
/// than one path.
pub fn normalize_errors(errors: Vec<Error>) -> (r: Vec<Error>)
    ensures
        problems(r@) == normalized(problems(errors@)),
{
    let ghost source = errors@;
    let ghost all = problems(errors@);
    let mut sorted: Vec<Error> = Vec::new();
    assert(problems(sorted@) =~= in_source_order(all.take(0)));
    for e in iter: errors
        invariant
            iter.seq() == source,
            all == problems(source),
            problems(sorted@) == in_source_order(all.take(iter.index())),
    {
        let ghost i = iter.index();
        let ghost rest = problems(sorted@);
        let k = find_slot(&sorted, &e);
        sorted.insert(k, e);
        proof {
            assert(all.take(i + 1).drop_last() =~= all.take(i));
            assert(all.take(i + 1).last() == e@);
            assert(rest.len() == sorted@.len() - 1);
            assert(problems(sorted@) =~= rest.insert(k as int, e@));
        }
    }
    let ghost source = sorted@;
    let ghost ordered = problems(sorted@);
    assert(all.take(all.len() as int) =~= all);
    let mut out: Vec<Error> = Vec::new();
    assert(problems(out@) =~= distinct(ordered.take(0)));
    for e in iter: sorted
        invariant
            iter.seq() == source,
            ordered == problems(source),
            problems(out@) == distinct(ordered.take(iter.index())),
    {
        let ghost i = iter.index();
        let ghost rest = problems(out@);
        proof {
            assert(ordered.take(i + 1).drop_last() =~= ordered.take(i));
            assert(ordered.take(i + 1).last() == e@);
        }
        if !holds_key(&out, &e) {
            out.push(e);
            assert(problems(out@) =~= rest.push(e@));
        }
    }
    assert(ordered.take(ordered.len() as int) =~= ordered);
    out
}

} // verus!
