//! Source files, byte offsets and spans.

use std::sync::Arc;

use vstd::prelude::*;
use vstd::utf8::{encode_scalar, encode_utf8};

use crate::strings::{chars_of, owned};

verus! {

/// A source file: the name shown in diagnostics and the text.
#[derive(Debug)]
pub struct SourceFile {
    pub label: String,
    pub source: String,
}

/// A range of byte offsets in a source file.
#[derive(Debug)]
pub struct Span {
    pub file: Arc<SourceFile>,
    pub start: usize,
    pub end: usize,
}

/// What a [`Span`] says.
#[verifier::ext_equal]
pub struct Extent {
    pub label: Seq<char>,
    pub source: Seq<char>,
    pub start: nat,
    pub end: nat,
}

impl Span {
    pub open spec fn view(&self) -> Extent {
        Extent {
            label: self.file.label@,
            source: self.file.source@,
            start: self.start as nat,
            end: self.end as nat,
        }
    }

    /// The bytes from `start` to `end`.
    pub fn new(file: Arc<SourceFile>, start: usize, end: usize) -> (r: Span)
        ensures
            r.file == file,
            r.start == start,
            r.end == end,
    {
        Span { file, start, end }
    }

    /// The one-byte extent at `offset`.
    pub fn point(file: Arc<SourceFile>, offset: usize) -> (r: Span)
        ensures
            r.file == file,
            r.start == offset,
            r.end == if offset < usize::MAX {
                (offset + 1) as usize
            } else {
                usize::MAX
            },
    {
        Span {
            file,
            start: offset,
            end: if offset < usize::MAX {
                offset + 1
            } else {
                usize::MAX
            },
        }
    }

    /// A copy of the span.
    pub fn copy(&self) -> (r: Span)
        ensures
            r == *self,
    {
        Span { file: share(&self.file), start: self.start, end: self.end }
    }
}

impl Clone for Span {
    fn clone(&self) -> (r: Span)
        ensures
            r == *self,
    {
        self.copy()
    }
}

/// `Arc::clone` of the standard library: another handle on the same value.
#[verifier::external_body]
pub(crate) fn share(file: &Arc<SourceFile>) -> (r: Arc<SourceFile>)
    ensures
        r == *file,
{
    Arc::clone(file)
}

/// A new source file.
pub fn source_file(label: &str, source: &str) -> (r: Arc<SourceFile>)
    ensures
        r.label@ == label@,
        r.source@ == source@,
{
    Arc::new(SourceFile { label: owned(label), source: owned(source) })
}

/// How many bytes a character takes in UTF-8.
pub open spec fn width(c: char) -> nat {
    if (c as int) < 0x80 {
        1
    } else if (c as int) < 0x800 {
        2
    } else if (c as int) < 0x10000 {
        3
    } else {
        4
    }
}

/// The byte offset of character `k` of a text.
pub open spec fn offset(s: Seq<char>, k: int) -> nat
    decreases k,
{
    if k <= 0 {
        0
    } else {
        offset(s, k - 1) + width(s[k - 1])
    }
}

/// The byte length of a text.
pub open spec fn byte_len(s: Seq<char>) -> nat {
    offset(s, s.len() as int)
}

proof fn lemma_offset_shift(s: Seq<char>, k: int)
    requires
        1 <= k <= s.len(),
    ensures
        offset(s, k) == width(s[0]) + offset(s.drop_first(), k - 1),
    decreases k,
{
    if k > 1 {
        lemma_offset_shift(s, k - 1);
    } else {
        assert(offset(s, 0) == 0);
        assert(offset(s.drop_first(), 0) == 0);
    }
}

proof fn lemma_encoded_width(c: char)
    ensures
        encode_scalar(c as u32).len() == width(c),
{
    vstd::utf8::char_is_scalar(c);
    assert((c as u32) as int == c as int);
}

/// A text takes as many bytes as its UTF-8 encoding.
pub proof fn byte_len_is_encoded_len(s: Seq<char>)
    ensures
        byte_len(s) == encode_utf8(s).len(),
    decreases s.len(),
{
    if s.len() > 0 {
        byte_len_is_encoded_len(s.drop_first());
        lemma_offset_shift(s, s.len() as int);
        lemma_encoded_width(s[0]);
    }
}

/// Offsets grow with the character index.
pub proof fn offset_is_monotonic(s: Seq<char>, i: int, j: int)
    requires
        0 <= i <= j <= s.len(),
    ensures
        offset(s, i) + (j - i) <= offset(s, j),
    decreases j - i,
{
    if i < j {
        offset_is_monotonic(s, i, j - 1);
    }
}

/// A text as characters, with the byte offset of each.
pub struct SourceText {
    pub chars: Vec<char>,
    pub offsets: Vec<usize>,
}

impl SourceText {
    pub open spec fn view(&self) -> Seq<char> {
        self.chars@
    }

    /// Whether the table holds the offsets of the characters.
    pub open spec fn wf(&self) -> bool {
        &&& self.offsets@.len() == self.chars@.len() + 1
        &&& forall|k: int|
            0 <= k <= self.chars@.len() ==> #[trigger] self.offsets@[k] == offset(self.chars@, k)
    }

    /// The characters of `source` with their offsets.
    pub fn new(source: &str) -> (r: SourceText)
        ensures
            r@ == source@,
            r.wf(),
    {
        let chars = chars_of(source);
        let bytes = source.as_bytes();
        let total: usize = bytes.len();
        proof {
            byte_len_is_encoded_len(source@);
        }
        let mut offsets: Vec<usize> = Vec::new();
        offsets.push(0);
        let mut at: usize = 0;
        let mut i: usize = 0;
        while i < chars.len()
            invariant
                i <= chars.len(),
                chars@ == source@,
                total == byte_len(chars@),
                at == offset(chars@, i as int),
                offsets@.len() == i + 1,
                forall|k: int| 0 <= k <= i ==> #[trigger] offsets@[k] == offset(chars@, k),
            decreases chars.len() - i,
        {
            proof {
                offset_is_monotonic(chars@, i + 1, chars@.len() as int);
            }
            at = at + char_width(chars[i]);
            offsets.push(at);
            i += 1;
        }
        SourceText { chars, offsets }
    }

    /// The byte offset of character `k`.
    pub fn at(&self, k: usize) -> (r: usize)
        requires
            self.wf(),
            k <= self@.len(),
        ensures
            r == offset(self@, k as int),
    {
        self.offsets[k]
    }

    /// The characters from index `i` to index `j`.
    pub fn slice(&self, i: usize, j: usize) -> (r: String)
        requires
            i <= j <= self@.len(),
        ensures
            r@ == self@.subrange(i as int, j as int),
    {
        let mut out = String::new();
        let mut k: usize = i;
        while k < j
            invariant
                i <= k <= j <= self.chars@.len(),
                out@ == self.chars@.subrange(i as int, k as int),
            decreases j - k,
        {
            out.push(self.chars[k]);
            assert(out@ =~= self.chars@.subrange(i as int, k + 1));
            k += 1;
        }
        out
    }

    /// The index of the first character at or after byte `b`.
    pub fn index_of(&self, b: usize) -> (r: usize)
        requires
            self.wf(),
        ensures
            r == char_index(self@, b as nat),
            r <= self@.len(),
    {
        let mut lo: usize = 0;
        let mut hi: usize = self.chars.len();
        // offset(lo - 1) < b <= offset(hi), unless hi is the end.
        while lo < hi
            invariant
                lo <= hi <= self.chars@.len(),
                self.wf(),
                forall|k: int| 0 <= k < lo ==> #[trigger] offset(self.chars@, k) < b,
                hi < self.chars@.len() ==> offset(self.chars@, hi as int) >= b,
            decreases hi - lo,
        {
            let mid: usize = lo + (hi - lo) / 2;
            if self.offsets[mid] < b {
                proof {
                    assert forall|k: int| 0 <= k < mid + 1 implies #[trigger] offset(
                        self.chars@,
                        k,
                    ) < b by {
                        offset_is_monotonic(self.chars@, k, mid as int);
                    }
                }
                lo = mid + 1;
            } else {
                hi = mid;
            }
        }
        proof {
            lemma_char_index(self.chars@, b as nat, 0, lo as int);
        }
        lo
    }
}

/// The index of the first character of `s` whose offset is at least `b`, or
/// the length of `s`.
pub open spec fn char_index(s: Seq<char>, b: nat) -> nat {
    char_index_from(s, b, 0)
}

/// [`char_index`], from character `k` on.
pub open spec fn char_index_from(s: Seq<char>, b: nat, k: int) -> nat
    decreases s.len() - k,
{
    if k >= s.len() {
        s.len()
    } else if offset(s, k) >= b {
        k as nat
    } else {
        char_index_from(s, b, k + 1)
    }
}

proof fn lemma_char_index(s: Seq<char>, b: nat, k: int, r: int)
    requires
        0 <= k <= r <= s.len(),
        forall|j: int| 0 <= j < r ==> #[trigger] offset(s, j) < b,
        r < s.len() ==> offset(s, r) >= b,
    ensures
        char_index_from(s, b, k) == r,
    decreases r - k,
{
    if k < r {
        lemma_char_index(s, b, k + 1, r);
    }
}

/// The byte offset of a character leads back to it.
pub proof fn char_index_of_offset(s: Seq<char>, k: int)
    requires
        0 <= k <= s.len(),
    ensures
        char_index(s, offset(s, k)) == k,
{
    assert forall|j: int| 0 <= j < k implies #[trigger] offset(s, j) < offset(s, k) by {
        offset_is_monotonic(s, j, k);
    }
    lemma_char_index(s, offset(s, k), 0, k);
}

/// The text between two byte offsets.
pub open spec fn text_between(s: Seq<char>, start: nat, end: nat) -> Seq<char> {
    let i = char_index(s, start);
    let j = char_index(s, end);
    if i <= j {
        s.subrange(i as int, j as int)
    } else {
        Seq::empty()
    }
}

impl SourceText {
    /// The text between two byte offsets.
    pub fn between(&self, start: usize, end: usize) -> (r: String)
        requires
            self.wf(),
        ensures
            r@ == text_between(self@, start as nat, end as nat),
    {
        let i: usize = self.index_of(start);
        let j: usize = self.index_of(end);
        if i <= j {
            self.slice(i, j)
        } else {
            String::new()
        }
    }
}

/// How many bytes a character takes in UTF-8.
pub fn char_width(c: char) -> (r: usize)
    ensures
        r == width(c),
{
    let code: u32 = c as u32;
    if code < 0x80 {
        1
    } else if code < 0x800 {
        2
    } else if code < 0x10000 {
        3
    } else {
        4
    }
}

} // verus!
