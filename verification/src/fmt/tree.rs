//! The tree of lines that the formatter lays out.
//!
//! The token stream is shaped by bracket balance alone: newlines split lines
//! (the lexer suppresses them inside `(...)` and `[...]`), `(...)`, `[...]` and
//! the `uses { ... }` row become comma-separated groups, and `{ ... }` becomes
//! a block of nested lines.

use vstd::prelude::*;

use crate::error::{trim_end, trimmed_end};
use crate::lexer::{remarks, toks, Comment, Kind, Remark, Tok, Token, TokenKind};
use crate::source::{text_between, SourceText};
use crate::strings::texts;

verus! {

#[derive(Debug, Clone, Copy, PartialEq, Eq, Structural)]
pub enum GroupKind {
    /// `( ... )`
    Paren,
    /// `[ ... ]`
    Bracket,
    /// The `uses { ... }` effect row: braces as list delimiters.
    Brace,
}

/// A token with its exact source text.
#[derive(Debug)]
pub struct Leaf {
    pub kind: TokenKind,
    /// Whether this is a `<`, `>` or shift token that stands for an operator
    /// and not for a generic bracket.
    pub spaced: bool,
    pub text: String,
}

#[derive(Debug)]
pub enum Atom {
    Leaf(Leaf),
    Group(Group),
    Block(BlockNode),
}

/// A comma-separated bracket group.
#[derive(Debug)]
pub struct Group {
    pub kind: GroupKind,
    pub elements: Vec<Element>,
    /// Comments between the last element and the closer.
    pub dangling: Vec<String>,
}

#[derive(Debug)]
pub struct Element {
    /// Own-line comments before the element.
    pub leading: Vec<String>,
    pub atoms: Vec<Atom>,
    /// Comments on the element's line; rendered after the comma.
    pub trailing: Vec<String>,
}

/// A `{ ... }` block: nested lines.
#[derive(Debug)]
pub struct BlockNode {
    pub lines: Vec<Line>,
    /// True when the block spanned multiple source lines. Such a block is never
    /// re-joined onto one line: the statement structure belongs to the author.
    pub multi_line: bool,
}

#[derive(Debug)]
pub struct Line {
    /// A single blank line precedes this line (runs of blanks collapse).
    pub blank_before: bool,
    /// Empty for an own-line comment line (the comment is in `trailing`).
    pub atoms: Vec<Atom>,
    pub trailing: Vec<String>,
}

/// What a [`Leaf`] says.
#[verifier::ext_equal]
pub struct LeafT {
    pub kind: Kind,
    pub spaced: bool,
    pub text: Seq<char>,
}

/// What an [`Atom`] says.
#[verifier::ext_equal]
pub enum AtomT {
    Leaf(LeafT),
    Group(GroupT),
    Block(BlockT),
}

/// What a [`Group`] says.
#[verifier::ext_equal]
pub struct GroupT {
    pub kind: GroupKind,
    pub elements: Seq<ElementT>,
    pub dangling: Seq<Seq<char>>,
}

/// What an [`Element`] says.
#[verifier::ext_equal]
pub struct ElementT {
    pub leading: Seq<Seq<char>>,
    pub atoms: Seq<AtomT>,
    pub trailing: Seq<Seq<char>>,
}

/// What a [`BlockNode`] says.
#[verifier::ext_equal]
pub struct BlockT {
    pub lines: Seq<LineT>,
    pub multi_line: bool,
}

/// What a [`Line`] says.
#[verifier::ext_equal]
pub struct LineT {
    pub blank_before: bool,
    pub atoms: Seq<AtomT>,
    pub trailing: Seq<Seq<char>>,
}

impl Leaf {
    pub open spec fn view(&self) -> LeafT {
        LeafT { kind: self.kind@, spaced: self.spaced, text: self.text@ }
    }
}

impl Atom {
    pub open spec fn view(&self) -> AtomT
        decreases self,
    {
        match self {
            Atom::Leaf(leaf) => AtomT::Leaf(leaf@),
            Atom::Group(group) => AtomT::Group(group.view()),
            Atom::Block(block) => AtomT::Block(block.view()),
        }
    }
}

impl Group {
    pub open spec fn view(&self) -> GroupT
        decreases self,
    {
        GroupT {
            kind: self.kind,
            elements: elements(self.elements@),
            dangling: texts(self.dangling@),
        }
    }
}

impl Element {
    pub open spec fn view(&self) -> ElementT
        decreases self,
    {
        ElementT {
            leading: texts(self.leading@),
            atoms: atoms(self.atoms@),
            trailing: texts(self.trailing@),
        }
    }
}

impl BlockNode {
    pub open spec fn view(&self) -> BlockT
        decreases self,
    {
        BlockT { lines: lines(self.lines@), multi_line: self.multi_line }
    }
}

impl Line {
    pub open spec fn view(&self) -> LineT
        decreases self,
    {
        LineT {
            blank_before: self.blank_before,
            atoms: atoms(self.atoms@),
            trailing: texts(self.trailing@),
        }
    }
}

/// What a list of atoms says.
pub open spec fn atoms(s: Seq<Atom>) -> Seq<AtomT>
    decreases s,
{
    Seq::new(
        s.len(),
        |i: int|
            if 0 <= i < s.len() {
                s[i].view()
            } else {
                AtomT::Block(BlockT { lines: Seq::empty(), multi_line: false })
            },
    )
}

/// What a list of elements says.
pub open spec fn elements(s: Seq<Element>) -> Seq<ElementT>
    decreases s,
{
    Seq::new(
        s.len(),
        |i: int|
            if 0 <= i < s.len() {
                s[i].view()
            } else {
                ElementT { leading: Seq::empty(), atoms: Seq::empty(), trailing: Seq::empty() }
            },
    )
}

/// What a list of lines says.
pub open spec fn lines(s: Seq<Line>) -> Seq<LineT>
    decreases s,
{
    Seq::new(
        s.len(),
        |i: int|
            if 0 <= i < s.len() {
                s[i].view()
            } else {
                LineT { blank_before: false, atoms: Seq::empty(), trailing: Seq::empty() }
            },
    )
}

/// A token or a comment, in the order of the source.
pub enum Item {
    /// A token, with the byte offset where it ends.
    Leaf(Leaf, usize),
    /// The text of a comment, with the byte offset where it starts.
    Remark(String, usize),
}

/// What an [`Item`] says.
#[verifier::ext_equal]
pub enum ItemT {
    Leaf(LeafT, nat),
    Remark(Seq<char>, nat),
}

impl Item {
    pub open spec fn view(&self) -> ItemT {
        match self {
            Item::Leaf(leaf, end) => ItemT::Leaf(leaf@, *end as nat),
            Item::Remark(text, start) => ItemT::Remark(text@, *start as nat),
        }
    }
}

/// What a list of items says.
pub open spec fn item_views(s: Seq<Item>) -> Seq<ItemT> {
    s.map_values(|i: Item| i@)
}

/// A token that may be an operator or a generic bracket.
pub open spec fn is_angle(kind: Kind) -> bool {
    kind is Lt || kind is Gt || kind is Shl || kind is Shr || kind is UShr
}

/// Whether offset `at` lies in one of the ranges.
pub open spec fn in_ranges(ranges: Seq<(usize, usize)>, at: nat) -> bool {
    exists|i: int| 0 <= i < ranges.len() && (#[trigger] ranges[i]).0 <= at && at < ranges[i].1
}

/// The item of a token.
pub open spec fn token_item(src: Seq<char>, ranges: Seq<(usize, usize)>, t: Tok) -> ItemT {
    ItemT::Leaf(
        LeafT {
            kind: t.kind,
            spaced: is_angle(t.kind) && in_ranges(ranges, t.start),
            text: text_between(src, t.start, t.end),
        },
        t.end,
    )
}

/// The item of a comment.
pub open spec fn remark_item(src: Seq<char>, c: Remark) -> ItemT {
    ItemT::Remark(trimmed_end(text_between(src, c.start, c.end)), c.start)
}

/// Merges the tokens from `i` on and the comments from `j` on by where they
/// start, after `out`.
pub open spec fn merge_rest(
    out: Seq<ItemT>,
    src: Seq<char>,
    ranges: Seq<(usize, usize)>,
    tokens: Seq<Tok>,
    comments: Seq<Remark>,
    i: int,
    j: int,
) -> Seq<ItemT>
    decreases (tokens.len() - i) + (comments.len() - j),
{
    if i < 0 || j < 0 || i > tokens.len() || j > comments.len() {
        out
    } else if i < tokens.len() && (j == comments.len() || tokens[i].start <= comments[j].start) {
        merge_rest(
            out.push(token_item(src, ranges, tokens[i])),
            src,
            ranges,
            tokens,
            comments,
            i + 1,
            j,
        )
    } else if j < comments.len() {
        merge_rest(
            out.push(remark_item(src, comments[j])),
            src,
            ranges,
            tokens,
            comments,
            i,
            j + 1,
        )
    } else {
        out
    }
}

fn angle(kind: &TokenKind) -> (r: bool)
    ensures
        r == is_angle(kind@),
{
    matches!(
        kind,
        TokenKind::Lt | TokenKind::Gt | TokenKind::Shl | TokenKind::Shr | TokenKind::UShr
    )
}

fn within(ranges: &Vec<(usize, usize)>, at: usize) -> (r: bool)
    ensures
        r == in_ranges(ranges@, at as nat),
{
    let mut i: usize = 0;
    while i < ranges.len()
        invariant
            i <= ranges.len(),
            forall|k: int|
                0 <= k < i ==> !((#[trigger] ranges@[k]).0 <= at && at < ranges@[k].1),
        decreases ranges.len() - i,
    {
        if ranges[i].0 <= at && at < ranges[i].1 {
            assert(ranges@[i as int].0 <= at && at < ranges@[i as int].1);
            return true;
        }
        i += 1;
    }
    false
}

fn leaf_of(text: &SourceText, ranges: &Vec<(usize, usize)>, token: &Token) -> (r: Item)
    requires
        text.wf(),
    ensures
        r@ == token_item(text@, ranges@, token@),
{
    let spaced = angle(&token.kind) && within(ranges, token.span.start);
    let shown = text.between(token.span.start, token.span.end);
    Item::Leaf(Leaf { kind: token.kind.copy(), spaced, text: shown }, token.span.end)
}

fn remark_of(text: &SourceText, comment: &Comment) -> (r: Item)
    requires
        text.wf(),
    ensures
        r@ == remark_item(text@, comment@),
{
    let shown = text.between(comment.span.start, comment.span.end);
    Item::Remark(trim_end(shown.as_str()), comment.span.start)
}

/// The tokens and comments of a source text as one stream. A token in one of
/// the `ranges` that may be an operator is one.
pub fn merge(
    text: &SourceText,
    ranges: &Vec<(usize, usize)>,
    tokens: &Vec<Token>,
    comments: &Vec<Comment>,
) -> (r: Vec<Item>)
    requires
        text.wf(),
    ensures
        item_views(r@) == merge_rest(
            Seq::empty(),
            text@,
            ranges@,
            toks(tokens@),
            remarks(comments@),
            0,
            0,
        ),
{
    let ghost ts = toks(tokens@);
    let ghost cs = remarks(comments@);
    let ghost want = merge_rest(Seq::empty(), text@, ranges@, ts, cs, 0, 0);
    let mut out: Vec<Item> = Vec::new();
    let mut i: usize = 0;
    let mut j: usize = 0;
    assert(item_views(out@) =~= Seq::<ItemT>::empty());
    while i < tokens.len() || j < comments.len()
        invariant
            text.wf(),
            ts == toks(tokens@),
            cs == remarks(comments@),
            i <= tokens.len(),
            j <= comments.len(),
            want == merge_rest(item_views(out@), text@, ranges@, ts, cs, i as int, j as int),
        decreases (tokens.len() - i) + (comments.len() - j),
    {
        let ghost before = item_views(out@);
        if i < tokens.len() && (j == comments.len() || tokens[i].span.start
            <= comments[j].span.start) {
            assert(ts[i as int] == tokens@[i as int]@);
            if j < comments.len() {
                assert(cs[j as int] == comments@[j as int]@);
            }
            out.push(leaf_of(text, ranges, &tokens[i]));
            assert(item_views(out@) =~= before.push(out@.last()@));
            i += 1;
        } else {
            assert(cs[j as int] == comments@[j as int]@);
            if i < tokens.len() {
                assert(ts[i as int] == tokens@[i as int]@);
            }
            out.push(remark_of(text, &comments[j]));
            assert(item_views(out@) =~= before.push(out@.last()@));
            j += 1;
        }
    }
    out
}

/// A bracket that is still open, with what stands in it so far.
pub enum Frame {
    Lines(OpenLines),
    Group(OpenGroup),
}

/// The lines of the file or of an open block.
pub struct OpenLines {
    pub lines: Vec<Line>,
    pub atoms: Vec<Atom>,
    pub trailing: Vec<String>,
    /// A blank line precedes the next line.
    pub blank: bool,
    /// The last thing at this level was a newline.
    pub after_newline: bool,
    /// A newline was seen directly at this level.
    pub saw_newline: bool,
}

/// An open group: the elements before the last comma, and the element after it.
pub struct OpenGroup {
    pub kind: GroupKind,
    pub elements: Vec<Element>,
    pub atoms: Vec<Atom>,
    pub trailing: Vec<String>,
    /// Comments that belong to the next element.
    pub pending: Vec<String>,
    /// Where the last token directly in the group ended.
    pub code_end: usize,
}

/// What a [`Frame`] says.
#[verifier::ext_equal]
pub enum FrameT {
    Lines(OpenLinesT),
    Group(OpenGroupT),
}

/// What an [`OpenLines`] says.
#[verifier::ext_equal]
pub struct OpenLinesT {
    pub lines: Seq<LineT>,
    pub atoms: Seq<AtomT>,
    pub trailing: Seq<Seq<char>>,
    pub blank: bool,
    pub after_newline: bool,
    pub saw_newline: bool,
}

/// What an [`OpenGroup`] says.
#[verifier::ext_equal]
pub struct OpenGroupT {
    pub kind: GroupKind,
    pub elements: Seq<ElementT>,
    pub atoms: Seq<AtomT>,
    pub trailing: Seq<Seq<char>>,
    pub pending: Seq<Seq<char>>,
    pub code_end: nat,
}

impl OpenLines {
    pub open spec fn view(&self) -> OpenLinesT {
        OpenLinesT {
            lines: lines(self.lines@),
            atoms: atoms(self.atoms@),
            trailing: texts(self.trailing@),
            blank: self.blank,
            after_newline: self.after_newline,
            saw_newline: self.saw_newline,
        }
    }
}

impl OpenGroup {
    pub open spec fn view(&self) -> OpenGroupT {
        OpenGroupT {
            kind: self.kind,
            elements: elements(self.elements@),
            atoms: atoms(self.atoms@),
            trailing: texts(self.trailing@),
            pending: texts(self.pending@),
            code_end: self.code_end as nat,
        }
    }
}

impl Frame {
    pub open spec fn view(&self) -> FrameT {
        match self {
            Frame::Lines(l) => FrameT::Lines(l@),
            Frame::Group(g) => FrameT::Group(g@),
        }
    }
}

/// What a stack of frames says.
pub open spec fn frames(s: Seq<Frame>) -> Seq<FrameT> {
    s.map_values(|f: Frame| f@)
}

/// Lines that have just been opened.
pub open spec fn no_lines() -> OpenLinesT {
    OpenLinesT {
        lines: Seq::empty(),
        atoms: Seq::empty(),
        trailing: Seq::empty(),
        blank: false,
        after_newline: false,
        saw_newline: false,
    }
}

/// A group that has just been opened.
pub open spec fn no_elements(kind: GroupKind) -> OpenGroupT {
    OpenGroupT {
        kind,
        elements: Seq::empty(),
        atoms: Seq::empty(),
        trailing: Seq::empty(),
        pending: Seq::empty(),
        code_end: 0,
    }
}

/// Whether the atoms end with the `uses` keyword, i.e. the `{` that follows
/// opens an effect row (a comma list), not a block.
pub open spec fn ends_with_uses(s: Seq<AtomT>) -> bool {
    s.len() > 0 && s.last() is Leaf && s.last()->Leaf_0.kind is Uses
}

/// Whether the atoms end with a comma.
pub open spec fn ends_with_comma(s: Seq<AtomT>) -> bool {
    s.len() > 0 && s.last() is Leaf && s.last()->Leaf_0.kind is Comma
}

/// Ends the current line, if there is anything on it. A redundant separator
/// comma at its end is dropped: the newline is the canonical separator.
pub open spec fn end_line(l: OpenLinesT) -> OpenLinesT {
    if l.atoms.len() == 0 && l.trailing.len() == 0 {
        l
    } else {
        OpenLinesT {
            lines: l.lines.push(
                LineT {
                    blank_before: l.blank,
                    atoms: if ends_with_comma(l.atoms) {
                        l.atoms.drop_last()
                    } else {
                        l.atoms
                    },
                    trailing: l.trailing,
                },
            ),
            atoms: Seq::empty(),
            trailing: Seq::empty(),
            blank: false,
            ..l
        }
    }
}

/// A comment among lines: an own-line comment is a line of its own.
pub open spec fn lines_remark(l: OpenLinesT, text: Seq<char>) -> OpenLinesT {
    if l.atoms.len() == 0 && l.trailing.len() == 0 {
        OpenLinesT {
            lines: l.lines.push(
                LineT { blank_before: l.blank, atoms: Seq::empty(), trailing: seq![text] },
            ),
            blank: false,
            after_newline: false,
            ..l
        }
    } else {
        OpenLinesT { trailing: l.trailing.push(text), ..l }
    }
}

/// A newline among lines. Blank lines collapse to one, and those before the
/// first line are dropped.
pub open spec fn lines_newline(l: OpenLinesT) -> OpenLinesT {
    if l.atoms.len() == 0 && l.trailing.len() == 0 {
        OpenLinesT {
            blank: l.blank || (l.after_newline && l.lines.len() > 0),
            after_newline: true,
            saw_newline: true,
            ..l
        }
    } else {
        OpenLinesT { after_newline: true, saw_newline: true, ..end_line(l) }
    }
}

/// Ends the current element of a group.
pub open spec fn end_element(g: OpenGroupT) -> OpenGroupT {
    OpenGroupT {
        elements: g.elements.push(
            ElementT { leading: g.pending, atoms: g.atoms, trailing: g.trailing },
        ),
        atoms: Seq::empty(),
        trailing: Seq::empty(),
        pending: Seq::empty(),
        ..g
    }
}

/// A comment in a group. Right after a comma on the same source line it belongs
/// to the element before the comma.
pub open spec fn group_remark(src: Seq<char>, g: OpenGroupT, text: Seq<char>, start: nat) -> OpenGroupT {
    if g.atoms.len() > 0 {
        OpenGroupT { trailing: g.trailing.push(text), ..g }
    } else if g.elements.len() > 0 && !text_between(src, g.code_end, start).contains('\n') {
        let last = g.elements.last();
        OpenGroupT {
            elements: g.elements.drop_last().push(
                ElementT { trailing: last.trailing.push(text), ..last },
            ),
            ..g
        }
    } else {
        OpenGroupT { pending: g.pending.push(text), ..g }
    }
}

/// A block from its lines.
pub open spec fn close_lines(l: OpenLinesT) -> BlockT {
    BlockT { lines: end_line(l).lines, multi_line: l.saw_newline }
}

/// A group from its elements.
pub open spec fn close_group(g: OpenGroupT) -> GroupT {
    let ended = if g.atoms.len() == 0 && g.trailing.len() == 0 {
        g
    } else {
        end_element(g)
    };
    GroupT { kind: g.kind, elements: ended.elements, dangling: ended.pending }
}

/// What a frame is when it is closed.
pub open spec fn closed(f: FrameT) -> AtomT {
    match f {
        FrameT::Lines(l) => AtomT::Block(close_lines(l)),
        FrameT::Group(g) => AtomT::Group(close_group(g)),
    }
}

/// One more atom in a frame.
pub open spec fn with_atom(f: FrameT, a: AtomT) -> FrameT {
    match f {
        FrameT::Lines(l) => FrameT::Lines(OpenLinesT { atoms: l.atoms.push(a), ..l }),
        FrameT::Group(g) => FrameT::Group(OpenGroupT { atoms: g.atoms.push(a), ..g }),
    }
}

/// The atoms that stand at the end of a frame.
pub open spec fn frame_atoms(f: FrameT) -> Seq<AtomT> {
    match f {
        FrameT::Lines(l) => l.atoms,
        FrameT::Group(g) => g.atoms,
    }
}

/// The kind of the closing token of a group.
pub open spec fn close_kind(kind: GroupKind) -> Kind {
    match kind {
        GroupKind::Paren => Kind::RParen,
        GroupKind::Bracket => Kind::RBracket,
        GroupKind::Brace => Kind::RBrace,
    }
}

/// The frame that a token opens after some atoms, if it is an opening bracket.
pub open spec fn opened(kind: Kind, before: Seq<AtomT>) -> Option<FrameT> {
    match kind {
        Kind::LParen => Some(FrameT::Group(no_elements(GroupKind::Paren))),
        Kind::LBracket => Some(FrameT::Group(no_elements(GroupKind::Bracket))),
        Kind::LBrace => if ends_with_uses(before) {
            Some(FrameT::Group(no_elements(GroupKind::Brace)))
        } else {
            Some(FrameT::Lines(no_lines()))
        },
        _ => None,
    }
}

/// Where a token leads.
#[verifier::ext_equal]
pub enum NextT {
    /// The frame goes on.
    Stay(FrameT),
    /// A bracket was opened in the frame.
    Open(FrameT, FrameT),
    /// The frame was closed.
    Close(AtomT),
    /// There is nothing more to read.
    Stop(FrameT),
}

/// A token in a frame. A `}` that nothing opened ends the file.
pub open spec fn advance(f: FrameT, outermost: bool, leaf: LeafT, end: nat) -> NextT {
    let ends = match f {
        FrameT::Lines(_) => leaf.kind is RBrace,
        FrameT::Group(g) => leaf.kind == close_kind(g.kind),
    };
    if leaf.kind is Eof || (ends && outermost) {
        NextT::Stop(f)
    } else if ends {
        NextT::Close(closed(f))
    } else {
        let noted = match f {
            FrameT::Lines(l) => FrameT::Lines(l),
            FrameT::Group(g) => FrameT::Group(OpenGroupT { code_end: end, ..g }),
        };
        match opened(leaf.kind, frame_atoms(f)) {
            Some(inner) => NextT::Open(noted, inner),
            None => NextT::Stay(plain_token(noted, leaf)),
        }
    }
}

/// A token that is no bracket.
pub open spec fn plain_token(f: FrameT, leaf: LeafT) -> FrameT {
    match f {
        FrameT::Lines(l) => if leaf.kind is Newline {
            FrameT::Lines(lines_newline(l))
        } else {
            with_atom(f, AtomT::Leaf(leaf))
        },
        FrameT::Group(g) => if leaf.kind is Newline {
            f
        } else if leaf.kind is Comma {
            FrameT::Group(end_element(g))
        } else {
            with_atom(f, AtomT::Leaf(leaf))
        },
    }
}

/// The open frames, outermost first, and whether the end has been reached.
#[verifier::ext_equal]
pub struct TreeT {
    pub frames: Seq<FrameT>,
    pub done: bool,
}

/// One more item.
pub open spec fn grow(src: Seq<char>, t: TreeT, item: ItemT) -> TreeT {
    let rest = t.frames.drop_last();
    let top = t.frames.last();
    if t.done {
        t
    } else {
        match item {
            ItemT::Remark(text, start) => TreeT {
                frames: rest.push(
                    match top {
                        FrameT::Lines(l) => FrameT::Lines(lines_remark(l, text)),
                        FrameT::Group(g) => FrameT::Group(group_remark(src, g, text, start)),
                    },
                ),
                done: false,
            },
            ItemT::Leaf(leaf, end) => match advance(top, t.frames.len() == 1, leaf, end) {
                NextT::Stay(f) => TreeT { frames: rest.push(f), done: false },
                NextT::Open(f, inner) => TreeT { frames: rest.push(f).push(inner), done: false },
                NextT::Close(a) => TreeT {
                    frames: rest.drop_last().push(with_atom(rest.last(), a)),
                    done: false,
                },
                NextT::Stop(f) => TreeT { frames: rest.push(f), done: true },
            },
        }
    }
}

/// The tree of a list of items.
pub open spec fn grown(src: Seq<char>, items: Seq<ItemT>) -> TreeT
    decreases items.len(),
{
    if items.len() == 0 {
        TreeT { frames: seq![FrameT::Lines(no_lines())], done: false }
    } else {
        grow(src, grown(src, items.drop_last()), items.last())
    }
}

/// Closes every open frame; the lines of the outermost.
pub open spec fn finished(s: Seq<FrameT>) -> Seq<LineT>
    decreases s.len(),
{
    if s.len() <= 1 {
        match s[0] {
            FrameT::Lines(l) => end_line(l).lines,
            FrameT::Group(_) => Seq::empty(),
        }
    } else {
        let rest = s.drop_last();
        finished(rest.drop_last().push(with_atom(rest.last(), closed(s.last()))))
    }
}

/// The lines of a list of items.
pub open spec fn built(src: Seq<char>, items: Seq<ItemT>) -> Seq<LineT> {
    finished(grown(src, items).frames)
}

fn last_is_uses(s: &Vec<Atom>) -> (r: bool)
    ensures
        r == ends_with_uses(atoms(s@)),
{
    if s.len() == 0 {
        return false;
    }
    assert(atoms(s@).last() == s@.last()@);
    match &s[s.len() - 1] {
        Atom::Leaf(leaf) => matches!(leaf.kind, TokenKind::Uses),
        _ => false,
    }
}

fn last_is_comma(s: &Vec<Atom>) -> (r: bool)
    ensures
        r == ends_with_comma(atoms(s@)),
{
    if s.len() == 0 {
        return false;
    }
    assert(atoms(s@).last() == s@.last()@);
    match &s[s.len() - 1] {
        Atom::Leaf(leaf) => matches!(leaf.kind, TokenKind::Comma),
        _ => false,
    }
}

fn open_lines() -> (r: OpenLines)
    ensures
        r@ == no_lines(),
{
    let r = OpenLines {
        lines: Vec::new(),
        atoms: Vec::new(),
        trailing: Vec::new(),
        blank: false,
        after_newline: false,
        saw_newline: false,
    };
    assert(r@ =~= no_lines());
    r
}

fn open_group(kind: GroupKind) -> (r: OpenGroup)
    ensures
        r@ == no_elements(kind),
{
    let r = OpenGroup {
        kind,
        elements: Vec::new(),
        atoms: Vec::new(),
        trailing: Vec::new(),
        pending: Vec::new(),
        code_end: 0,
    };
    assert(r@ =~= no_elements(kind));
    r
}

fn line_ended(l: OpenLines) -> (r: OpenLines)
    ensures
        r@ == end_line(l@),
{
    assert(atoms(l.atoms@).len() == l.atoms@.len());
    if l.atoms.len() == 0 && l.trailing.len() == 0 {
        return l;
    }
    let mut l = l;
    let ghost was = l@;
    let comma = last_is_comma(&l.atoms);
    if comma {
        let _dropped = l.atoms.pop();
        assert(atoms(l.atoms@) =~= was.atoms.drop_last());
    }
    let line = Line { blank_before: l.blank, atoms: l.atoms, trailing: l.trailing };
    let mut all = l.lines;
    all.push(line);
    let r = OpenLines {
        lines: all,
        atoms: Vec::new(),
        trailing: Vec::new(),
        blank: false,
        after_newline: l.after_newline,
        saw_newline: l.saw_newline,
    };
    assert(lines(all@) =~= was.lines.push(line@));
    assert(r@ =~= end_line(was));
    r
}

fn lines_with_remark(l: OpenLines, text: String) -> (r: OpenLines)
    ensures
        r@ == lines_remark(l@, text@),
{
    let ghost was = l@;
    assert(atoms(l.atoms@).len() == l.atoms@.len());
    let mut l = l;
    if l.atoms.len() == 0 && l.trailing.len() == 0 {
        let mut one: Vec<String> = Vec::new();
        one.push(text);
        assert(texts(one@) =~= seq![text@]);
        let none: Vec<Atom> = Vec::new();
        assert(atoms(none@) =~= Seq::<AtomT>::empty());
        let line = Line { blank_before: l.blank, atoms: none, trailing: one };
        assert(line@ =~= (LineT {
            blank_before: was.blank,
            atoms: Seq::empty(),
            trailing: seq![text@],
        }));
        l.lines.push(line);
        assert(lines(l.lines@) =~= was.lines.push(line@));
        l.blank = false;
        l.after_newline = false;
    } else {
        l.trailing.push(text);
        assert(texts(l.trailing@) =~= was.trailing.push(text@));
    }
    assert(l@ =~= lines_remark(was, text@));
    l
}

fn lines_with_newline(l: OpenLines) -> (r: OpenLines)
    ensures
        r@ == lines_newline(l@),
{
    assert(atoms(l.atoms@).len() == l.atoms@.len());
    assert(lines(l.lines@).len() == l.lines@.len());
    if l.atoms.len() == 0 && l.trailing.len() == 0 {
        let mut l = l;
        if l.after_newline && l.lines.len() > 0 {
            l.blank = true;
        }
        l.after_newline = true;
        l.saw_newline = true;
        l
    } else {
        let mut l = line_ended(l);
        l.after_newline = true;
        l.saw_newline = true;
        l
    }
}

fn element_ended(g: OpenGroup) -> (r: OpenGroup)
    ensures
        r@ == end_element(g@),
{
    let ghost was = g@;
    let element = Element { leading: g.pending, atoms: g.atoms, trailing: g.trailing };
    let mut all = g.elements;
    all.push(element);
    let r = OpenGroup {
        kind: g.kind,
        elements: all,
        atoms: Vec::new(),
        trailing: Vec::new(),
        pending: Vec::new(),
        code_end: g.code_end,
    };
    assert(elements(all@) =~= was.elements.push(element@));
    assert(r@ =~= end_element(was));
    r
}

fn newline_between(text: &SourceText, start: usize, end: usize) -> (r: bool)
    requires
        text.wf(),
    ensures
        r == text_between(text@, start as nat, end as nat).contains('\n'),
{
    let i: usize = text.index_of(start);
    let j: usize = text.index_of(end);
    let ghost part = text_between(text@, start as nat, end as nat);
    let mut k: usize = i;
    while k < j
        invariant
            i <= k,
            i <= j ==> k <= j,
            j <= text.chars@.len(),
            part == text_between(text@, start as nat, end as nat),
            part == if i <= j {
                text@.subrange(i as int, j as int)
            } else {
                Seq::empty()
            },
            forall|m: int| 0 <= m < k - i && m < part.len() ==> part[m] != '\n',
        decreases j - k,
    {
        if text.chars[k] == '\n' {
            assert(part[k - i] == '\n');
            return true;
        }
        k += 1;
    }
    false
}

fn group_with_remark(text: &SourceText, g: OpenGroup, shown: String, start: usize) -> (r: OpenGroup)
    requires
        text.wf(),
    ensures
        r@ == group_remark(text@, g@, shown@, start as nat),
{
    let ghost was = g@;
    assert(atoms(g.atoms@).len() == g.atoms@.len());
    assert(elements(g.elements@).len() == g.elements@.len());
    let mut g = g;
    if g.atoms.len() > 0 {
        g.trailing.push(shown);
        assert(texts(g.trailing@) =~= was.trailing.push(shown@));
    } else if g.elements.len() > 0 && !newline_between(text, g.code_end, start) {
        let ghost before = g.elements@;
        if let Some(last) = g.elements.pop() {
            assert(was.elements.last() == last@);
            assert(elements(g.elements@) =~= was.elements.drop_last());
            let mut trailing = last.trailing;
            let ghost t0 = texts(trailing@);
            trailing.push(shown);
            assert(texts(trailing@) =~= t0.push(shown@));
            let noted = Element { leading: last.leading, atoms: last.atoms, trailing };
            let ghost rest = g.elements@;
            g.elements.push(noted);
            assert(elements(g.elements@) =~= elements(rest).push(noted@));
        }
    } else {
        g.pending.push(shown);
        assert(texts(g.pending@) =~= was.pending.push(shown@));
    }
    assert(g@ =~= group_remark(text@, was, shown@, start as nat));
    g
}

fn close_frame(f: Frame) -> (r: Atom)
    ensures
        r@ == closed(f@),
{
    match f {
        Frame::Lines(l) => {
            let multi_line = l.saw_newline;
            let ended = line_ended(l);
            let r = Atom::Block(BlockNode { lines: ended.lines, multi_line });
            assert(r@ == AtomT::Block(BlockT { lines: ended@.lines, multi_line }));
            r
        },
        Frame::Group(g) => {
            assert(atoms(g.atoms@).len() == g.atoms@.len());
            let kind = g.kind;
            let ended = if g.atoms.len() == 0 && g.trailing.len() == 0 {
                g
            } else {
                element_ended(g)
            };
            let r = Atom::Group(
                Group { kind, elements: ended.elements, dangling: ended.pending },
            );
            assert(r@ == AtomT::Group(
                GroupT { kind, elements: ended@.elements, dangling: ended@.pending },
            ));
            r
        },
    }
}

fn add_atom(f: Frame, a: Atom) -> (r: Frame)
    ensures
        r@ == with_atom(f@, a@),
{
    let ghost was = f@;
    match f {
        Frame::Lines(l) => {
            let mut l = l;
            let ghost before = atoms(l.atoms@);
            l.atoms.push(a);
            assert(atoms(l.atoms@) =~= before.push(a@));
            Frame::Lines(l)
        },
        Frame::Group(g) => {
            let mut g = g;
            let ghost before = atoms(g.atoms@);
            g.atoms.push(a);
            assert(atoms(g.atoms@) =~= before.push(a@));
            Frame::Group(g)
        },
    }
}

fn open_frame(kind: &TokenKind, f: &Frame) -> (r: Option<Frame>)
    ensures
        match r {
            Some(inner) => opened(kind@, frame_atoms(f@)) == Some(inner@),
            None => opened(kind@, frame_atoms(f@)) is None,
        },
{
    match kind {
        TokenKind::LParen => Some(Frame::Group(open_group(GroupKind::Paren))),
        TokenKind::LBracket => Some(Frame::Group(open_group(GroupKind::Bracket))),
        TokenKind::LBrace => {
            let row = match f {
                Frame::Lines(l) => last_is_uses(&l.atoms),
                Frame::Group(g) => last_is_uses(&g.atoms),
            };
            if row {
                Some(Frame::Group(open_group(GroupKind::Brace)))
            } else {
                Some(Frame::Lines(open_lines()))
            }
        },
        _ => None,
    }
}

fn closes(f: &Frame, kind: &TokenKind) -> (r: bool)
    ensures
        r == match f@ {
            FrameT::Lines(_) => kind@ is RBrace,
            FrameT::Group(g) => kind@ == close_kind(g.kind),
        },
{
    match f {
        Frame::Lines(_) => matches!(kind, TokenKind::RBrace),
        Frame::Group(g) => match g.kind {
            GroupKind::Paren => matches!(kind, TokenKind::RParen),
            GroupKind::Bracket => matches!(kind, TokenKind::RBracket),
            GroupKind::Brace => matches!(kind, TokenKind::RBrace),
        },
    }
}

fn with_token(f: Frame, leaf: Leaf) -> (r: Frame)
    ensures
        r@ == plain_token(f@, leaf@),
{
    let newline = matches!(leaf.kind, TokenKind::Newline);
    let comma = matches!(leaf.kind, TokenKind::Comma);
    match f {
        Frame::Lines(l) => {
            if newline {
                Frame::Lines(lines_with_newline(l))
            } else {
                add_atom(Frame::Lines(l), Atom::Leaf(leaf))
            }
        },
        Frame::Group(g) => {
            if newline {
                Frame::Group(g)
            } else if comma {
                Frame::Group(element_ended(g))
            } else {
                add_atom(Frame::Group(g), Atom::Leaf(leaf))
            }
        },
    }
}

fn note_end(f: Frame, end: usize) -> (r: Frame)
    ensures
        r@ == match f@ {
            FrameT::Lines(l) => FrameT::Lines(l),
            FrameT::Group(g) => FrameT::Group(OpenGroupT { code_end: end as nat, ..g }),
        },
{
    match f {
        Frame::Lines(l) => Frame::Lines(l),
        Frame::Group(g) => {
            let mut g = g;
            g.code_end = end;
            Frame::Group(g)
        },
    }
}

/// Where a token leads.
enum Next {
    Stay(Frame),
    Open(Frame, Frame),
    Close(Atom),
    Stop(Frame),
}

impl Next {
    spec fn view(&self) -> NextT {
        match self {
            Next::Stay(f) => NextT::Stay(f@),
            Next::Open(f, inner) => NextT::Open(f@, inner@),
            Next::Close(a) => NextT::Close(a@),
            Next::Stop(f) => NextT::Stop(f@),
        }
    }
}

fn next(f: Frame, outermost: bool, leaf: Leaf, end: usize) -> (r: Next)
    ensures
        r@ == advance(f@, outermost, leaf@, end as nat),
{
    let ends = closes(&f, &leaf.kind);
    let eof = matches!(leaf.kind, TokenKind::Eof);
    if eof || (ends && outermost) {
        Next::Stop(f)
    } else if ends {
        Next::Close(close_frame(f))
    } else {
        match open_frame(&leaf.kind, &f) {
            Some(inner) => Next::Open(note_end(f, end), inner),
            None => Next::Stay(with_token(note_end(f, end), leaf)),
        }
    }
}

/// The open frames, outermost first.
struct Tree {
    frames: Vec<Frame>,
    done: bool,
}

impl Tree {
    spec fn view(&self) -> TreeT {
        TreeT { frames: frames(self.frames@), done: self.done }
    }

    /// Takes the innermost frame.
    fn take(&mut self) -> (r: Option<Frame>)
        ensures
            match r {
                Some(f) => {
                    &&& old(self)@.frames.len() > 0
                    &&& f@ == old(self)@.frames.last()
                    &&& final(self)@ == (TreeT {
                        frames: old(self)@.frames.drop_last(),
                        ..old(self)@
                    })
                },
                None => old(self)@.frames.len() == 0 && final(self)@ == old(self)@,
            },
    {
        let r = self.frames.pop();
        assert(r is Some ==> frames(self.frames@) =~= old(self)@.frames.drop_last());
        r
    }

    /// Puts a frame on the top.
    fn put(&mut self, f: Frame)
        ensures
            final(self)@ == (TreeT { frames: old(self)@.frames.push(f@), ..old(self)@ }),
    {
        self.frames.push(f);
        assert(frames(self.frames@) =~= old(self)@.frames.push(f@));
    }

    fn remark(&mut self, text: &SourceText, shown: String, start: usize)
        requires
            text.wf(),
            old(self)@.frames.len() > 0,
            !old(self).done,
        ensures
            final(self)@ == grow(text@, old(self)@, ItemT::Remark(shown@, start as nat)),
    {
        if let Some(top) = self.take() {
            let noted = match top {
                Frame::Lines(l) => Frame::Lines(lines_with_remark(l, shown)),
                Frame::Group(g) => Frame::Group(group_with_remark(text, g, shown, start)),
            };
            self.put(noted);
        }
    }

    fn leaf(&mut self, Ghost(src): Ghost<Seq<char>>, leaf: Leaf, end: usize)
        requires
            old(self)@.frames.len() > 0,
            !old(self).done,
        ensures
            final(self)@ == grow(src, old(self)@, ItemT::Leaf(leaf@, end as nat)),
    {
        let outermost = self.frames.len() == 1;
        if let Some(top) = self.take() {
            match next(top, outermost, leaf, end) {
                Next::Stay(f) => self.put(f),
                Next::Open(f, inner) => {
                    self.put(f);
                    self.put(inner);
                },
                Next::Close(a) => {
                    if let Some(outer) = self.take() {
                        self.put(add_atom(outer, a));
                    }
                },
                Next::Stop(f) => {
                    self.put(f);
                    self.done = true;
                },
            }
        }
    }
}

proof fn lemma_grow_keeps_a_frame(src: Seq<char>, t: TreeT, item: ItemT)
    requires
        t.frames.len() > 0,
    ensures
        grow(src, t, item).frames.len() > 0,
{
}

/// Builds the tree of lines of a stream of tokens and comments.
pub fn build(text: &SourceText, items: Vec<Item>) -> (r: Vec<Line>)
    requires
        text.wf(),
    ensures
        lines(r@) == built(text@, item_views(items@)),
{
    let ghost all = item_views(items@);
    let mut tree = Tree { frames: Vec::new(), done: false };
    tree.put(Frame::Lines(open_lines()));
    proof {
        assert(all.take(0).len() == 0);
        assert(tree@ =~= grown(text@, all.take(0)));
    }
    for item in iter: items
        invariant
            text.wf(),
            iter.seq() == items@,
            all == item_views(items@),
            tree@.frames.len() > 0,
            tree@ == grown(text@, all.take(iter.index() as int)),
    {
        proof {
            let k = iter.index() as int;
            assert(all.take(k + 1).drop_last() =~= all.take(k));
            assert(all.take(k + 1).last() == item@);
            lemma_grow_keeps_a_frame(text@, tree@, item@);
        }
        if !tree.done {
            match item {
                Item::Remark(shown, start) => tree.remark(text, shown, start),
                Item::Leaf(leaf, end) => tree.leaf(Ghost(text@), leaf, end),
            }
        }
    }
    assert(all.take(all.len() as int) =~= all);
    finish(tree)
}

fn finish(tree: Tree) -> (r: Vec<Line>)
    requires
        tree@.frames.len() > 0,
    ensures
        lines(r@) == finished(tree@.frames),
{
    let ghost want = finished(tree@.frames);
    let mut tree = tree;
    while tree.frames.len() > 1
        invariant
            tree@.frames.len() > 0,
            want == finished(tree@.frames),
        decreases tree@.frames.len(),
    {
        assert(tree@.frames.len() == tree.frames@.len());
        if let Some(top) = tree.take() {
            let a = close_frame(top);
            if let Some(outer) = tree.take() {
                tree.put(add_atom(outer, a));
            }
        }
    }
    assert(tree@.frames.len() == tree.frames@.len());
    match tree.take() {
        Some(Frame::Lines(l)) => line_ended(l).lines,
        _ => {
            let none: Vec<Line> = Vec::new();
            assert(lines(none@) =~= Seq::<LineT>::empty());
            none
        },
    }
}

} // verus!
