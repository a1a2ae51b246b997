//! The layout of values in a running module's linear memory.
//!
//! The host reads the arguments of a call out of the memory, and allocates its
//! results there:
//!
//! - a string or `Bytes` is `[len: i32][bytes]`;
//! - a record is a pointer to consecutive 8-byte field slots;
//! - an `Array` is `[len: i32][elem...]` with 4-byte pointer elements;
//! - an enum without a payload is `[tag: i32]`, a payload variant `[tag][field...]`;
//! - a fallible result is a cell `[ok: i32][pad][value: 8 bytes]`.
//!
//! Only the module can allocate. What to allocate is laid out as a list of
//! [`Block`]s: each is allocated in turn, and then filled with numbers, with
//! bytes, and with pointers to blocks before it.

use vstd::prelude::*;

verus! {

/// Why memory could not be read: an access out of bounds.
#[derive(Debug, Clone, Copy, PartialEq, Eq, Structural)]
pub enum Fail {
    /// Of a word.
    Word,
    /// Of the bytes of a string.
    Text,
}

/// The number that four bytes stand for, least significant first.
pub open spec fn from_le(b: Seq<u8>) -> u32 {
    (b[0] as int + 256 * b[1] as int + 65536 * b[2] as int + 16777216 * b[3] as int) as u32
}

/// The four bytes that a number is stored as, least significant first.
pub open spec fn to_le(n: u32) -> Seq<u8> {
    seq![
        (n % 256) as u8,
        (n / 256 % 256) as u8,
        (n / 65536 % 256) as u8,
        (n / 16777216) as u8,
    ]
}

/// A number is read back from its bytes.
pub proof fn numbers_are_read_back(n: u32)
    ensures
        from_le(to_le(n)) == n,
        to_le(n).len() == 4,
{
    let b = to_le(n);
    assert(b[0] as int == n as int % 256);
    assert(b[1] as int == n as int / 256 % 256);
    assert(b[2] as int == n as int / 65536 % 256);
    assert(b[3] as int == n as int / 16777216);
    assert(n as int / 65536 == (n as int / 256) / 256);
    assert(n as int / 16777216 == (n as int / 65536) / 256);
}

/// The word at an offset.
pub open spec fn word_at(mem: Seq<u8>, at: int) -> Result<u32, Fail> {
    if 0 <= at && at + 4 <= mem.len() {
        Ok(from_le(mem.subrange(at, at + 4)))
    } else {
        Err(Fail::Word)
    }
}

/// The bytes of the string or `Bytes` at an offset.
pub open spec fn bytes_at(mem: Seq<u8>, at: int) -> Result<Seq<u8>, Fail> {
    match word_at(mem, at) {
        Err(f) => Err(f),
        Ok(n) => if at + 4 + n <= mem.len() {
            Ok(mem.subrange(at + 4, at + 4 + n))
        } else {
            Err(Fail::Text)
        },
    }
}

/// Reads the word `more` bytes after an offset.
pub fn read_u32(mem: &[u8], offset: usize, more: usize) -> (r: Result<u32, Fail>)
    ensures
        r == word_at(mem@, offset + more),
{
    let n: usize = mem.len();
    if n < 4 || offset > n - 4 || more > n - 4 - offset {
        return Err(Fail::Word);
    }
    let i: usize = offset + more;
    let ghost b = mem@.subrange(i as int, i + 4);
    let value: u32 = mem[i] as u32 + 256 * (mem[i + 1] as u32) + 65536 * (mem[i + 2] as u32)
        + 16777216 * (mem[i + 3] as u32);
    assert(b[0] == mem@[i as int] && b[1] == mem@[i + 1] && b[2] == mem@[i + 2] && b[3]
        == mem@[i + 3]);
    Ok(value)
}

/// Reads the bytes of a string or `Bytes`.
pub fn read_string_bytes(mem: &[u8], ptr: usize) -> (r: Result<Vec<u8>, Fail>)
    ensures
        match r {
            Ok(bytes) => bytes_at(mem@, ptr as int) == Ok::<Seq<u8>, Fail>(bytes@),
            Err(f) => bytes_at(mem@, ptr as int) == Err::<Seq<u8>, Fail>(f),
        },
{
    let size: usize = match read_u32(mem, ptr, 0) {
        Ok(size) => size as usize,
        Err(f) => {
            return Err(f);
        },
    };
    let n: usize = mem.len();
    let start: usize = ptr + 4;
    if size > n - start {
        return Err(Fail::Text);
    }
    let mut out: Vec<u8> = Vec::new();
    let mut i: usize = 0;
    while i < size
        invariant
            i <= size,
            start + size <= n,
            n == mem@.len(),
            out@ == mem@.subrange(start as int, start + i),
        decreases size - i,
    {
        out.push(mem[start + i]);
        assert(out@ =~= mem@.subrange(start as int, start + i + 1));
        i += 1;
    }
    Ok(out)
}

/// What a slot of a block holds.
#[derive(Debug, Clone, Copy, PartialEq, Eq, Structural)]
pub enum Word {
    Number(u32),
    /// The address of the block with this index.
    Pointer(usize),
}

/// Memory to allocate, and what to fill it with.
#[derive(Debug)]
pub struct Block {
    pub size: u32,
    /// Words, each with its offset.
    pub words: Vec<(u32, Word)>,
    /// Bytes behind the first word.
    pub bytes: Vec<u8>,
}

/// What a [`Block`] says.
#[verifier::ext_equal]
pub struct Area {
    pub size: u32,
    pub words: Seq<(u32, Word)>,
    pub bytes: Seq<u8>,
}

impl Block {
    pub open spec fn view(&self) -> Area {
        Area { size: self.size, words: self.words@, bytes: self.bytes@ }
    }
}

/// What a list of blocks says.
pub open spec fn areas(s: Seq<Block>) -> Seq<Area> {
    s.map_values(|b: Block| b@)
}

/// The most bytes that a string in memory can hold: a size is a signed number.
pub const MAX_TEXT: usize = 2147483643;

/// The block of a string or `Bytes`.
pub open spec fn text_area(bytes: Seq<u8>) -> Area {
    Area {
        size: (4 + bytes.len()) as u32,
        words: seq![(0u32, Word::Number(bytes.len() as u32))],
        bytes,
    }
}

/// The block of an enum value without a payload.
pub open spec fn tag_area(tag: u32) -> Area {
    Area { size: 8, words: seq![(0u32, Word::Number(tag))], bytes: Seq::empty() }
}

/// A block of two slots of 8 bytes.
pub open spec fn pair_area(first: Word, second: Word) -> Area {
    Area { size: 16, words: seq![(0u32, first), (8u32, second)], bytes: Seq::empty() }
}

/// The cell of a result, whose value is `value`.
pub open spec fn result_area(ok: bool, value: Word) -> Area {
    pair_area(
        Word::Number(
            if ok {
                1
            } else {
                0
            },
        ),
        value,
    )
}

/// Adds a block.
pub fn push_block(out: &mut Vec<Block>, b: Block)
    ensures
        areas(final(out)@) == areas(old(out)@).push(b@),
{
    let ghost before = areas(out@);
    out.push(b);
    assert(areas(out@) =~= before.push(b@));
}

/// Lays out a string or `Bytes`.
pub fn alloc_string(out: &mut Vec<Block>, bytes: Vec<u8>)
    requires
        bytes@.len() <= MAX_TEXT,
    ensures
        areas(final(out)@) == areas(old(out)@).push(text_area(bytes@)),
{
    let n: usize = bytes.len();
    let mut words: Vec<(u32, Word)> = Vec::new();
    words.push((0, Word::Number(n as u32)));
    let b = Block { size: (4 + n) as u32, words, bytes };
    assert(b@ =~= text_area(bytes@));
    push_block(out, b);
}

/// Lays out an enum value without a payload.
pub fn alloc_enum_tag(out: &mut Vec<Block>, tag: u32)
    ensures
        areas(final(out)@) == areas(old(out)@).push(tag_area(tag)),
{
    let mut words: Vec<(u32, Word)> = Vec::new();
    words.push((0, Word::Number(tag)));
    let b = Block { size: 8, words, bytes: Vec::new() };
    assert(b@ =~= tag_area(tag));
    push_block(out, b);
}

/// Lays out a block of two slots of 8 bytes.
pub fn alloc_pair(out: &mut Vec<Block>, first: Word, second: Word)
    ensures
        areas(final(out)@) == areas(old(out)@).push(pair_area(first, second)),
{
    let mut words: Vec<(u32, Word)> = Vec::new();
    words.push((0, first));
    words.push((8, second));
    let b = Block { size: 16, words, bytes: Vec::new() };
    assert(b@ =~= pair_area(first, second));
    push_block(out, b);
}

/// A variant with one string as its payload, after `out`.
pub open spec fn enum_string(out: Seq<Area>, tag: u32, bytes: Seq<u8>) -> Seq<Area> {
    out.push(text_area(bytes)).push(
        pair_area(Word::Number(tag), Word::Pointer(out.len() as usize)),
    )
}

/// Lays out a variant with one string as its payload.
pub fn alloc_enum_string(out: &mut Vec<Block>, tag: u32, bytes: Vec<u8>)
    requires
        bytes@.len() <= MAX_TEXT,
    ensures
        areas(final(out)@) == enum_string(areas(old(out)@), tag, bytes@),
{
    let at: usize = out.len();
    assert(areas(out@).len() == at);
    alloc_string(out, bytes);
    alloc_pair(out, Word::Number(tag), Word::Pointer(at));
}

/// Lays out the cell of a result whose value is the block before it.
pub fn write_result(out: &mut Vec<Block>, ok: bool)
    requires
        old(out)@.len() > 0,
    ensures
        areas(final(out)@) == areas(old(out)@).push(
            result_area(ok, Word::Pointer((old(out)@.len() - 1) as usize)),
        ),
{
    let at: usize = out.len() - 1;
    let flag: u32 = if ok {
        1
    } else {
        0
    };
    alloc_pair(out, Word::Number(flag), Word::Pointer(at));
}

/// A slot with the addresses of the blocks before it filled in.
pub open spec fn word_value(w: Word, addresses: Seq<u32>) -> u32 {
    match w {
        Word::Number(n) => n,
        Word::Pointer(i) => addresses[i as int],
    }
}

/// Memory with some bytes overwritten.
pub open spec fn overwritten(mem: Seq<u8>, at: int, bytes: Seq<u8>) -> Seq<u8> {
    Seq::new(
        mem.len(),
        |i: int| if at <= i < at + bytes.len() {
            bytes[i - at]
        } else {
            mem[i]
        },
    )
}

/// Memory with the first `n` words of a block filled in.
pub open spec fn filled_words(mem: Seq<u8>, words: Seq<(u32, Word)>, at: int, addresses: Seq<u32>, n: nat) -> Seq<
    u8,
>
    decreases n,
{
    if n == 0 {
        mem
    } else {
        overwritten(
            filled_words(mem, words, at, addresses, (n - 1) as nat),
            at + words[n - 1].0,
            to_le(word_value(words[n - 1].1, addresses)),
        )
    }
}

/// Memory with a block filled in at its address.
pub open spec fn filled(mem: Seq<u8>, b: Area, at: int, addresses: Seq<u32>) -> Seq<u8> {
    overwritten(filled_words(mem, b.words, at, addresses, b.words.len()), at + 4, b.bytes)
}

/// Whether a block's pointers are to blocks that have an address.
pub open spec fn is_placed(b: Area, n: nat) -> bool {
    forall|k: int| 0 <= k < b.words.len() ==> ((#[trigger] b.words[k]).1 matches Word::Pointer(i) ==> i < n)
}

/// Bytes to write at an address.
#[derive(Debug)]
pub struct Write {
    pub at: u64,
    pub bytes: Vec<u8>,
}

/// Memory after the first `n` of some writes.
pub open spec fn after_writes(mem: Seq<u8>, s: Seq<Write>, n: nat) -> Seq<u8>
    decreases n,
{
    if n == 0 {
        mem
    } else {
        overwritten(
            after_writes(mem, s, (n - 1) as nat),
            s[n - 1].at as int,
            s[n - 1].bytes@,
        )
    }
}

proof fn lemma_writes(mem: Seq<u8>, a: Seq<Write>, b: Seq<Write>, n: nat)
    requires
        n <= a.len(),
        n <= b.len(),
        forall|k: int| 0 <= k < n ==> a[k] == b[k],
    ensures
        after_writes(mem, a, n) == after_writes(mem, b, n),
    decreases n,
{
    if n > 0 {
        lemma_writes(mem, a, b, (n - 1) as nat);
    }
}

fn le_bytes(n: u32) -> (r: Vec<u8>)
    ensures
        r@ == to_le(n),
{
    let mut out: Vec<u8> = Vec::new();
    out.push((n % 256) as u8);
    out.push((n / 256 % 256) as u8);
    out.push((n / 65536 % 256) as u8);
    out.push((n / 16777216) as u8);
    assert(out@ =~= to_le(n));
    out
}

/// The writes that fill in a block at its address. `addresses` are those of the
/// blocks before it.
pub fn writes(b: Block, address: u32, addresses: &Vec<u32>) -> (r: Vec<Write>)
    requires
        is_placed(b@, addresses@.len()),
    ensures
        forall|mem: Seq<u8>|
            #[trigger] after_writes(mem, r@, r@.len()) == filled(
                mem,
                b@,
                address as int,
                addresses@,
            ),
{
    let ghost area = b@;
    let mut out: Vec<Write> = Vec::new();
    let mut i: usize = 0;
    while i < b.words.len()
        invariant
            i <= b.words.len(),
            b@ == area,
            is_placed(area, addresses@.len()),
            out@.len() == i,
            forall|mem: Seq<u8>|
                #[trigger] after_writes(mem, out@, i as nat) == filled_words(
                    mem,
                    area.words,
                    address as int,
                    addresses@,
                    i as nat,
                ),
        decreases b.words.len() - i,
    {
        let ghost before = out@;
        let (offset, word): (u32, Word) = b.words[i];
        assert(area.words[i as int] == (offset, word));
        let value: u32 = match word {
            Word::Number(n) => n,
            Word::Pointer(k) => addresses[k],
        };
        out.push(Write { at: address as u64 + offset as u64, bytes: le_bytes(value) });
        proof {
            assert forall|mem: Seq<u8>| #[trigger] after_writes(mem, out@, (i + 1) as nat)
                == filled_words(mem, area.words, address as int, addresses@, (i + 1) as nat) by {
                lemma_writes(mem, before, out@, i as nat);
                assert(after_writes(mem, before, i as nat) == filled_words(
                    mem,
                    area.words,
                    address as int,
                    addresses@,
                    i as nat,
                ));
            }
        }
        i += 1;
    }
    let ghost before = out@;
    out.push(Write { at: address as u64 + 4, bytes: b.bytes });
    proof {
        let n = before.len();
        assert forall|mem: Seq<u8>| #[trigger] after_writes(mem, out@, n + 1) == filled(
            mem,
            area,
            address as int,
            addresses@,
        ) by {
            lemma_writes(mem, before, out@, n);
            assert(after_writes(mem, before, n) == filled_words(
                mem,
                area.words,
                address as int,
                addresses@,
                n,
            ));
        }
    }
    out
}

/// A string that is written to memory is read back from there.
pub proof fn strings_are_read_back(mem: Seq<u8>, bytes: Seq<u8>, at: int, addresses: Seq<u32>)
    requires
        0 <= at,
        bytes.len() <= MAX_TEXT,
        at + 4 + bytes.len() <= mem.len(),
    ensures
        bytes_at(filled(mem, text_area(bytes), at, addresses), at) == Ok::<Seq<u8>, Fail>(bytes),
{
    let b = text_area(bytes);
    let n = bytes.len() as u32;
    numbers_are_read_back(n);
    reveal_with_fuel(filled_words, 2);
    let words = filled_words(mem, b.words, at, addresses, 1);
    assert(words == overwritten(mem, at, to_le(n)));
    let done = filled(mem, b, at, addresses);
    assert(done.subrange(at, at + 4) =~= to_le(n));
    assert(done.subrange(at + 4, at + 4 + n) =~= bytes);
}

/// The words of a pair are read back from memory.
pub proof fn pairs_are_read_back(mem: Seq<u8>, first: Word, second: Word, at: int, addresses: Seq<u32>)
    requires
        0 <= at,
        at + 16 <= mem.len(),
    ensures
        ({
            let done = filled(mem, pair_area(first, second), at, addresses);
            &&& word_at(done, at) == Ok::<u32, Fail>(word_value(first, addresses))
            &&& word_at(done, at + 8) == Ok::<u32, Fail>(word_value(second, addresses))
        }),
{
    let b = pair_area(first, second);
    let x = word_value(first, addresses);
    let y = word_value(second, addresses);
    numbers_are_read_back(x);
    numbers_are_read_back(y);
    reveal_with_fuel(filled_words, 3);
    let done = filled(mem, b, at, addresses);
    assert(done.subrange(at, at + 4) =~= to_le(x));
    assert(done.subrange(at + 8, at + 12) =~= to_le(y));
}

} // verus!
