//! How tokens and comments are written: they begin with no white space, and only
//! a character in quotes can hold a newline.

use vstd::prelude::*;

use super::airy::written_texts_are_solid;
use super::gaps::{sound_item, sound_items};
use super::stand::{is_remark, remark_texts};
use super::tree::{merge_rest, remark_item, token_item, ItemT};
use crate::error::{is_white, line_end, located, trimmed_end, Problem};
use crate::lexer::{
    char_contents, check_char, closer_kind, digits_end, escape_message, extent, in_word, is_digit,
    lex_attribute, lex_char, lex_comment, lex_number, lex_rest, lex_start, lex_step, lex_step_advances,
    lex_string, lex_word, lexed, newline_is_blank, opener_kind, pair_kind, single_kind,
    starts_word, string_contents, string_escape, tokens_of, with_token, word_end, Kind, Lexed, Remark, Tok,
};
use crate::source::{
    byte_len, char_index_of_offset, offset, offset_is_monotonic, text_between,
};

verus! {

/// Whether a text begins with no white space, and holds no newline unless it is
/// as short as a character in quotes and ends with no white space.
pub open spec fn is_written(t: Seq<char>) -> bool {
    &&& t.len() > 0 && !is_white(t[0])
    &&& (forall|i: int| 0 <= i < t.len() ==> #[trigger] t[i] != '\n') || (3 <= t.len() <= 4
        && !is_white(t[t.len() - 1]))
}

/// Whether `s` has no newline from character `i` to `j`.
spec fn unbroken(s: Seq<char>, i: int, j: int) -> bool {
    forall|k: int| i <= k < j ==> #[trigger] s[k] != '\n'
}

proof fn lemma_word(s: Seq<char>, i: int)
    requires
        0 <= i <= s.len(),
    ensures
        i <= word_end(s, i) <= s.len(),
        unbroken(s, i, word_end(s, i)),
    decreases s.len() - i,
{
    if i < s.len() && in_word(s[i]) {
        lemma_word(s, i + 1);
    }
}

proof fn lemma_digits(s: Seq<char>, i: int)
    requires
        0 <= i <= s.len(),
    ensures
        i <= digits_end(s, i) <= s.len(),
        unbroken(s, i, digits_end(s, i)),
    decreases s.len() - i,
{
    if i < s.len() && is_digit(s[i]) {
        lemma_digits(s, i + 1);
    }
}

proof fn lemma_line(s: Seq<char>, i: int)
    requires
        0 <= i <= s.len(),
    ensures
        i <= line_end(s, i) <= s.len(),
        unbroken(s, i, line_end(s, i)),
    decreases s.len() - i,
{
    if i < s.len() && s[i] != '\n' {
        lemma_line(s, i + 1);
    }
}

proof fn lemma_contents(st: Lexed, j: int, value: Seq<char>, errors: Seq<Problem>)
    requires
        0 <= j <= st.src.len(),
    ensures
        ({
            let t = string_contents(st, j, value, errors);
            &&& j <= t.end <= st.src.len()
            &&& t.errors.len() >= errors.len()
            &&& t.errors.len() == 0 && t.terminated ==> unbroken(st.src, j, t.end)
        }),
    decreases st.src.len() - j,
{
    let s = st.src;
    if j < s.len() && s[j] != '\n' && s[j] != '"' {
        if s[j] == '\\' {
            if j + 1 < s.len() {
                match string_escape(s[j + 1]) {
                    Some(c) => lemma_contents(st, j + 2, value.push(c), errors),
                    None => lemma_contents(
                        st,
                        j + 2,
                        value,
                        errors.push(
                            located(
                                "Unsupported string escape"@,
                                extent(st, j, j + 2),
                                escape_message(s[j + 1]),
                                None,
                            ),
                        ),
                    ),
                }
            }
        } else {
            lemma_contents(st, j + 1, value.push(s[j]), errors);
        }
    }
}

proof fn lemma_unbroken(s: Seq<char>, i: int, j: int)
    requires
        0 <= i < j <= s.len(),
        !is_white(s[i]),
        unbroken(s, i + 1, j),
    ensures
        is_written(s.subrange(i, j)),
{
    let t = s.subrange(i, j);
    assert(s[i] != '\n');
    assert forall|k: int| 0 <= k < t.len() implies #[trigger] t[k] != '\n' by {
        assert(t[k] == s[i + k]);
    }
}

proof fn lemma_trimmed(t: Seq<char>)
    requires
        t.len() > 0,
        !is_white(t[0]),
    ensures
        trimmed_end(t).len() > 0,
        trimmed_end(t).len() <= t.len(),
        forall|i: int| 0 <= i < trimmed_end(t).len() ==> #[trigger] trimmed_end(t)[i] == t[i],
        !is_white(trimmed_end(t)[trimmed_end(t).len() - 1]),
    decreases t.len(),
{
    if is_white(t.last()) {
        assert(t.len() > 1);
        lemma_trimmed(t.drop_last());
    }
}

/// Whether a step without an error adds nothing, a newline, a token that is
/// written so, or a comment that is.
spec fn steps_well(st: Lexed, next: Lexed) -> bool {
    next.errors.len() == 0 ==> {
        &&& st.errors.len() == 0
        &&& {
            ||| next.tokens == st.tokens && next.comments == st.comments
            ||| {
                let t = next.tokens.last();
                &&& next.comments == st.comments
                &&& next.tokens == st.tokens.push(t)
                &&& t.start == offset(st.src, st.i) && t.end == offset(st.src, next.i)
                &&& t.kind is Newline || is_written(st.src.subrange(st.i, next.i))
                &&& !(t.kind is Eof)
            }
            ||| {
                let c = next.comments.last();
                &&& next.tokens == st.tokens
                &&& next.comments == st.comments.push(c)
                &&& c.start == offset(st.src, st.i) && c.end == offset(st.src, next.i)
                &&& is_written(trimmed_end(st.src.subrange(st.i, next.i)))
                &&& is_remark(trimmed_end(st.src.subrange(st.i, next.i)))
            }
        }
    }
}

proof fn lemma_string(st: Lexed)
    requires
        0 <= st.i < st.src.len(),
        st.src[st.i] == '"',
    ensures
        steps_well(st, lex_string(st)),
{
    let t = string_contents(st, st.i + 1, Seq::empty(), st.errors);
    lemma_contents(st, st.i + 1, Seq::empty(), st.errors);
    let next = lex_string(st);
    assert(next.tokens =~= st.tokens.push(next.tokens.last()));
    if next.errors.len() == 0 {
        assert(t.terminated && t.errors.len() == 0);
        lemma_unbroken(st.src, st.i, t.end);
    }
}

proof fn lemma_token(st: Lexed, kind: Kind, j: int)
    ensures
        ({
            let next = with_token(st, kind, j);
            let t = next.tokens.last();
            &&& next.tokens == st.tokens.push(t)
            &&& next.comments == st.comments
            &&& next.errors == st.errors
            &&& next.i == j
            &&& t.kind == kind
            &&& t.start == offset(st.src, st.i) && t.end == offset(st.src, j)
        }),
{
}

proof fn lemma_char(st: Lexed)
    requires
        0 <= st.i < st.src.len(),
        st.src[st.i] == '\'',
    ensures
        steps_well(st, lex_char(st)),
{
    let next = lex_char(st);
    let l = char_contents(st);
    let base = check_char(st, l);
    assert(base.tokens == st.tokens && base.comments == st.comments && base.src == st.src
        && base.i == st.i);
    let c = match l.value {
        Some(c) => c,
        None => '\0',
    };
    lemma_token(base, Kind::Char(c), l.end);
    if next.errors.len() == 0 {
        assert(l.value is Some && l.closed);
        let text = st.src.subrange(st.i, l.end);
        assert(text[0] == '\'');
        assert(text[text.len() - 1] == '\'');
        assert(3 <= text.len() <= 4);
    }
}

proof fn lemma_number(st: Lexed)
    requires
        0 <= st.i < st.src.len(),
        is_digit(st.src[st.i]),
    ensures
        steps_well(st, lex_number(st)),
{
    let s = st.src;
    let next = lex_number(st);
    lemma_digits(s, st.i + 1);
    let end = digits_end(s, st.i + 1);
    assert(next.tokens =~= st.tokens.push(next.tokens.last()));
    if end + 1 < s.len() {
        lemma_digits(s, end + 1);
    }
    if next.errors.len() == 0 {
        lemma_unbroken(s, st.i, next.i);
    }
}

proof fn lemma_word_step(st: Lexed)
    requires
        0 <= st.i < st.src.len(),
        starts_word(st.src[st.i]),
    ensures
        steps_well(st, lex_word(st)),
{
    let next = lex_word(st);
    lemma_word(st.src, st.i + 1);
    lemma_unbroken(st.src, st.i, next.i);
    assert(next.tokens =~= st.tokens.push(next.tokens.last()));
}

proof fn lemma_attribute(st: Lexed)
    requires
        0 <= st.i < st.src.len(),
        st.src[st.i] == '@',
    ensures
        steps_well(st, lex_attribute(st)),
{
    let next = lex_attribute(st);
    lemma_word(st.src, st.i + 1);
    if word_end(st.src, st.i + 1) != st.i + 1 {
        lemma_unbroken(st.src, st.i, next.i);
        assert(next.tokens =~= st.tokens.push(next.tokens.last()));
    }
}

proof fn lemma_comment(st: Lexed)
    requires
        0 <= st.i,
        st.i + 1 < st.src.len(),
        st.src[st.i] == '-',
        st.src[st.i + 1] == '-',
    ensures
        steps_well(st, lex_comment(st)),
{
    let next = lex_comment(st);
    lemma_line(st.src, st.i + 2);
    lemma_unbroken(st.src, st.i, next.i);
    let text = st.src.subrange(st.i, next.i);
    lemma_trimmed(text);
    let shown = trimmed_end(text);
    assert forall|k: int| 0 <= k < shown.len() implies #[trigger] shown[k] != '\n' by {
        assert(shown[k] == text[k]);
        assert(text[k] == st.src[st.i + k]);
    }
    assert(next.comments =~= st.comments.push(next.comments.last()));
}

proof fn lemma_symbols(a: char, b: char)
    ensures
        pair_kind(a, b) is Some ==> !is_white(a) && b != '\n',
        opener_kind(a) is Some ==> !is_white(a),
        closer_kind(a) is Some ==> !is_white(a),
        single_kind(a) is Some ==> !is_white(a),
{
}

proof fn lemma_step(st: Lexed)
    requires
        0 <= st.i < st.src.len(),
    ensures
        steps_well(st, lex_step(st)),
{
    let s = st.src;
    let c = s[st.i];
    let next = lex_step(st);
    lex_step_advances(st);
    let b = if st.i + 1 < s.len() {
        s[st.i + 1]
    } else {
        c
    };
    lemma_symbols(c, b);
    let pair = if st.i + 1 < s.len() {
        pair_kind(c, s[st.i + 1])
    } else {
        None
    };
    if c == ' ' || c == '\t' || c == '\r' || (c == '\n' && newline_is_blank(st)) {
    } else if c == '\n' {
        assert(next.tokens =~= st.tokens.push(next.tokens.last()));
    } else if c == '-' && st.i + 1 < s.len() && s[st.i + 1] == '-' {
        lemma_comment(st);
    } else if pair is Some {
        lemma_unbroken(s, st.i, st.i + 2);
        assert(next.tokens =~= st.tokens.push(next.tokens.last()));
    } else if opener_kind(c) is Some || closer_kind(c) is Some || single_kind(c) is Some {
        lemma_unbroken(s, st.i, st.i + 1);
        assert(next.tokens =~= st.tokens.push(next.tokens.last()));
    } else if c == '@' {
        lemma_attribute(st);
    } else if is_digit(c) {
        lemma_number(st);
    } else if c == '"' {
        lemma_string(st);
    } else if c == '\'' {
        lemma_char(st);
    } else if starts_word(c) {
        lemma_word_step(st);
    }
}

/// Whether the token `t` is written so, or is a newline.
spec fn token_is_written(src: Seq<char>, t: Tok) -> bool {
    t.kind is Newline || is_written(text_between(src, t.start, t.end))
}

/// Whether the comment `c` is written so, in one line that does not end with white
/// space, and begins before the end of the text.
spec fn comment_is_written(src: Seq<char>, c: Remark) -> bool {
    &&& is_written(trimmed_end(text_between(src, c.start, c.end)))
    &&& is_remark(trimmed_end(text_between(src, c.start, c.end)))
    &&& c.start < byte_len(src)
}

/// Whether what was found so far is written so.
spec fn all_written(st: Lexed) -> bool {
    st.errors.len() == 0 ==> {
        &&& forall|i: int|
            0 <= i < st.tokens.len() ==> token_is_written(st.src, #[trigger] st.tokens[i]) && !(
            st.tokens[i].kind is Eof)
        &&& forall|i: int|
            0 <= i < st.comments.len() ==> comment_is_written(st.src, #[trigger] st.comments[i])
    }
}

proof fn lemma_rest(st: Lexed)
    requires
        0 <= st.i <= st.src.len(),
        all_written(st),
    ensures
        all_written(lex_rest(st)),
        lex_rest(st).src == st.src,
    decreases st.src.len() - st.i,
{
    if st.i < st.src.len() {
        let next = lex_step(st);
        lex_step_advances(st);
        lemma_step(st);
        char_index_of_offset(st.src, st.i);
        char_index_of_offset(st.src, next.i);
        offset_is_monotonic(st.src, st.i, st.src.len() as int);
        assert(text_between(st.src, offset(st.src, st.i), offset(st.src, next.i))
            == st.src.subrange(st.i, next.i));
        lemma_rest(next);
    }
}

proof fn lemma_merge(
    out: Seq<ItemT>,
    src: Seq<char>,
    ranges: Seq<(usize, usize)>,
    tokens: Seq<Tok>,
    comments: Seq<Remark>,
    i: int,
    j: int,
)
    requires
        sound_items(out),
        forall|k: int|
            0 <= k < tokens.len() ==> (#[trigger] tokens[k]).kind is Eof || token_is_written(
                src,
                tokens[k],
            ),
        forall|k: int|
            0 <= k < comments.len() ==> comment_is_written(src, #[trigger] comments[k]),
    ensures
        sound_items(merge_rest(out, src, ranges, tokens, comments, i, j)),
    decreases (tokens.len() - i) + (comments.len() - j),
{
    if i < 0 || j < 0 || i > tokens.len() || j > comments.len() {
    } else if i < tokens.len() && (j == comments.len() || tokens[i].start <= comments[j].start) {
        let item = token_item(src, ranges, tokens[i]);
        if !(tokens[i].kind is Newline) && !(tokens[i].kind is Eof) {
            written_texts_are_solid(text_between(src, tokens[i].start, tokens[i].end));
        }
        assert(sound_item(item));
        lemma_merge(out.push(item), src, ranges, tokens, comments, i + 1, j);
    } else if j < comments.len() {
        let item = remark_item(src, comments[j]);
        assert(comment_is_written(src, comments[j]));
        written_texts_are_solid(
            trimmed_end(text_between(src, comments[j].start, comments[j].end)),
        );
        assert(sound_item(item));
        lemma_merge(out.push(item), src, ranges, tokens, comments, i, j + 1);
    }
}

/// The items of a source text that lexes without an error have solid texts.
pub proof fn lexed_items_are_sound(
    label: Seq<char>,
    source: Seq<char>,
    ranges: Seq<(usize, usize)>,
)
    requires
        lexed(label, source).errors.len() == 0,
    ensures
        sound_items(
            merge_rest(
                Seq::empty(),
                source,
                ranges,
                tokens_of(label, source),
                lexed(label, source).comments,
                0,
                0,
            ),
        ),
{
    lemma_rest(lex_start(label, source));
    let all = lexed(label, source);
    let tokens = tokens_of(label, source);
    assert forall|k: int| 0 <= k < tokens.len() implies (#[trigger] tokens[k]).kind is Eof
        || token_is_written(source, tokens[k]) by {
        if k < all.tokens.len() {
            assert(tokens[k] == all.tokens[k]);
        }
    }
    lemma_merge(Seq::empty(), source, ranges, tokens, all.comments, 0, 0);
}

/// In a source text that lexes without an error, only the last token ends the file,
/// and every comment begins before it, in one line that does not end with white
/// space.
pub proof fn lexed_comments_are_remarks(label: Seq<char>, source: Seq<char>)
    requires
        lexed(label, source).errors.len() == 0,
    ensures
        forall|i: int|
            0 <= i < lexed(label, source).tokens.len() ==> !((#[trigger] lexed(
                label,
                source,
            ).tokens[i]).kind is Eof),
        forall|i: int|
            0 <= i < lexed(label, source).comments.len() ==> (#[trigger] lexed(
                label,
                source,
            ).comments[i]).start < byte_len(source),
        forall|i: int|
            0 <= i < lexed(label, source).comments.len() ==> is_remark(
                #[trigger] remark_texts(source, lexed(label, source).comments)[i],
            ),
{
    lemma_rest(lex_start(label, source));
    let all = lexed(label, source);
    assert forall|i: int| 0 <= i < all.comments.len() implies is_remark(
        #[trigger] remark_texts(source, all.comments)[i],
    ) by {
        assert(comment_is_written(source, all.comments[i]));
    }
}

} // verus!
