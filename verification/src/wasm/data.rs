//! Static string data: string literals laid out in linear memory as
//! `[len: i32][utf8]`.

use vstd::prelude::*;
use vstd::utf8::encode_utf8;

use super::layout::{align4, align8, aligned, aligned_is_least};
use crate::ir::{IrExpr, Node};
use crate::ir_walk::{first_occurrences, refs};
use crate::source::{byte_len, byte_len_is_encoded_len};
use crate::strings::{contains_name, decimal, push_wide, texts};

verus! {

/// Where the first literal stands, above the null-guard region.
pub const STRING_BASE: u64 = 16;

/// The string literals among some expressions.
pub open spec fn string_values(s: Seq<Node>) -> Seq<Seq<char>>
    decreases s.len(),
{
    if s.len() == 0 {
        Seq::empty()
    } else {
        match s.last() {
            Node::String(value) => string_values(s.drop_last()).push(value),
            _ => string_values(s.drop_last()),
        }
    }
}

/// The distinct string literals among some expressions, in order.
pub open spec fn literals(s: Seq<Node>) -> Seq<Seq<char>> {
    first_occurrences(string_values(s))
}

/// Where the data of the first `i` literals ends.
pub open spec fn data_end(strings: Seq<Seq<char>>, i: int) -> nat
    decreases i, 0nat,
{
    if i <= 0 {
        STRING_BASE as nat
    } else {
        string_offset(strings, i - 1) + 4 + byte_len(strings[i - 1])
    }
}

/// Where literal `i` stands.
pub open spec fn string_offset(strings: Seq<Seq<char>>, i: int) -> nat
    decreases i, 1nat,
{
    aligned(data_end(strings, i), 4)
}

/// Where the heap starts: above all literals.
pub open spec fn heap_start(strings: Seq<Seq<char>>) -> nat {
    aligned(data_end(strings, strings.len() as int), 8)
}

/// The literals follow one another without overlap, each at a multiple of 4,
/// and the heap follows the last.
pub proof fn literals_do_not_overlap(strings: Seq<Seq<char>>, i: int, j: int)
    requires
        0 <= i < j <= strings.len(),
    ensures
        string_offset(strings, i) % 4 == 0,
        string_offset(strings, i) >= STRING_BASE,
        string_offset(strings, i) + 4 + byte_len(strings[i]) <= data_end(strings, j),
        data_end(strings, j) <= string_offset(strings, j),
        data_end(strings, j) <= heap_start(strings),
    decreases j - i,
{
    aligned_is_least(data_end(strings, i), 4);
    lemma_data_end_low(strings, i);
    if j > i + 1 {
        literals_do_not_overlap(strings, i, j - 1);
    }
    aligned_is_least(data_end(strings, j), 4);
    lemma_data_end_high(strings, j);
}

proof fn lemma_data_end_low(strings: Seq<Seq<char>>, i: int)
    ensures
        data_end(strings, i) >= STRING_BASE,
    decreases i,
{
    if i > 0 {
        lemma_data_end_low(strings, i - 1);
        aligned_is_least(data_end(strings, i - 1), 4);
    }
}

proof fn lemma_data_end_high(strings: Seq<Seq<char>>, i: int)
    requires
        0 <= i <= strings.len(),
    ensures
        data_end(strings, i) <= heap_start(strings),
    decreases strings.len() - i,
{
    if i == strings.len() {
        aligned_is_least(data_end(strings, i), 8);
    } else {
        lemma_data_end_high(strings, i + 1);
        aligned_is_least(data_end(strings, i), 4);
    }
}

/// The distinct string literals among some expressions, in order.
pub fn collect_strings(nodes: &Vec<&IrExpr>) -> (r: Vec<String>)
    ensures
        texts(r@) == literals(refs(nodes@)),
{
    let ghost all = refs(nodes@);
    let mut out: Vec<String> = Vec::new();
    let mut i: usize = 0;
    assert(all.take(0).len() == 0);
    assert(texts(out@) =~= literals(all.take(0)));
    while i < nodes.len()
        invariant
            i <= nodes.len(),
            all == refs(nodes@),
            texts(out@) == literals(all.take(i as int)),
        decreases nodes.len() - i,
    {
        proof {
            assert(all.take(i + 1).drop_last() =~= all.take(i as int));
            assert(all.take(i + 1).last() == nodes@[i as int]@);
        }
        if let IrExpr::String(value) = nodes[i] {
            proof {
                let seen = string_values(all.take(i as int));
                assert(seen.push(value@).drop_last() =~= seen);
                assert(string_values(all.take(i + 1)) == seen.push(value@));
            }
            if !contains_name(&out, value.as_str()) {
                let ghost before = texts(out@);
                out.push(value.clone());
                assert(texts(out@) =~= before.push(value@));
            }
        }
        i += 1;
    }
    assert(all.take(all.len() as int) =~= all);
    out
}

/// Where the literals stand in memory, and where the heap starts; `None` when
/// they do not fit in a 32-bit address space.
pub fn place_strings(strings: &Vec<String>) -> (r: Option<(Vec<u64>, u64)>)
    ensures
        match r {
            Some((offsets, start)) => {
                &&& heap_start(texts(strings@)) <= u32::MAX
                &&& start == heap_start(texts(strings@))
                &&& offsets@.len() == strings@.len()
                &&& forall|i: int|
                    0 <= i < strings@.len() ==> #[trigger] offsets@[i] == string_offset(
                        texts(strings@),
                        i,
                    )
            },
            None => heap_start(texts(strings@)) > u32::MAX,
        },
{
    let ghost all = texts(strings@);
    let mut offsets: Vec<u64> = Vec::new();
    let mut end: u64 = STRING_BASE;
    let mut i: usize = 0;
    while i < strings.len()
        invariant
            i <= strings.len(),
            all == texts(strings@),
            offsets@.len() == i,
            end == data_end(all, i as int),
            end <= u32::MAX,
            forall|k: int| 0 <= k < i ==> #[trigger] offsets@[k] == string_offset(all, k),
        decreases strings.len() - i,
    {
        let len: usize = strings[i].as_str().as_bytes().len();
        let at: u64 = align4(end);
        proof {
            byte_len_is_encoded_len(all[i as int]);
            lemma_data_end_high(all, i + 1);
            aligned_is_least(end as nat, 4);
        }
        if len > 0xffff_ffff {
            return None;
        }
        offsets.push(at);
        end = at + 4 + len as u64;
        i += 1;
        if end > 0xffff_ffff {
            return None;
        }
    }
    let start: u64 = align8(end);
    if start > 0xffff_ffff {
        return None;
    }
    Some((offsets, start))
}

/// A hexadecimal digit.
pub open spec fn hex_digit(d: int) -> char {
    if d < 10 {
        ((48 + d) as u8) as char
    } else {
        ((87 + d) as u8) as char
    }
}

fn hex_char(d: u8) -> (r: char)
    requires
        d < 16,
    ensures
        r == hex_digit(d as int),
{
    if d < 10 {
        (48 + d) as char
    } else {
        (87 + d) as char
    }
}

/// Raw bytes as a data string, each as a `\HH` escape.
pub open spec fn hex_bytes(out: Seq<char>, s: Seq<u8>) -> Seq<char>
    decreases s.len(),
{
    if s.len() == 0 {
        out
    } else {
        let b = s.last() as int;
        hex_bytes(out, s.drop_last()).push('\\').push(hex_digit(b / 16)).push(hex_digit(b % 16))
    }
}

/// Appends raw bytes as a data string, each as a `\HH` escape.
pub fn push_hex(out: &mut String, bytes: &[u8])
    ensures
        final(out)@ == hex_bytes(old(out)@, bytes@),
{
    let mut i: usize = 0;
    assert(bytes@.take(0).len() == 0);
    while i < bytes.len()
        invariant
            i <= bytes@.len(),
            out@ == hex_bytes(old(out)@, bytes@.take(i as int)),
        decreases bytes@.len() - i,
    {
        let b: u8 = bytes[i];
        out.push('\\');
        out.push(hex_char(b / 16));
        out.push(hex_char(b % 16));
        proof {
            assert(bytes@.take(i + 1).drop_last() =~= bytes@.take(i as int));
            assert(bytes@.take(i + 1).last() == b);
        }
        i += 1;
    }
    assert(bytes@.take(bytes@.len() as int) =~= bytes@);
}

/// A length as four bytes, least significant first.
pub open spec fn le_bytes(n: nat) -> Seq<u8> {
    seq![
        (n % 256) as u8,
        (n / 256 % 256) as u8,
        (n / 65536 % 256) as u8,
        (n / 16777216 % 256) as u8,
    ]
}

/// A literal's data segment.
pub open spec fn segment(out: Seq<char>, at: nat, value: Seq<char>) -> Seq<char> {
    hex_bytes(
        hex_bytes(
            out + "  (data (i32.const "@ + decimal(at) + ") \""@,
            le_bytes(byte_len(value)),
        ),
        encode_utf8(value),
    ) + "\")\n"@
}

/// The data segments of the first `n` literals.
pub open spec fn segments(out: Seq<char>, strings: Seq<Seq<char>>, n: int) -> Seq<char>
    decreases n,
{
    if n <= 0 {
        out
    } else {
        segment(segments(out, strings, n - 1), string_offset(strings, n - 1), strings[n - 1])
    }
}

/// Appends the data segments of the literals.
pub fn push_segments(out: &mut String, strings: &Vec<String>, offsets: &Vec<u64>)
    requires
        offsets@.len() == strings@.len(),
        forall|i: int|
            0 <= i < strings@.len() ==> #[trigger] offsets@[i] == string_offset(
                texts(strings@),
                i,
            ),
    ensures
        final(out)@ == segments(old(out)@, texts(strings@), strings@.len() as int),
{
    let ghost all = texts(strings@);
    let mut i: usize = 0;
    while i < strings.len()
        invariant
            i <= strings.len(),
            all == texts(strings@),
            offsets@.len() == strings@.len(),
            forall|k: int|
                0 <= k < strings@.len() ==> #[trigger] offsets@[k] == string_offset(all, k),
            out@ == segments(old(out)@, all, i as int),
        decreases strings.len() - i,
    {
        let bytes = strings[i].as_str().as_bytes();
        let n: usize = bytes.len();
        out.push_str("  (data (i32.const ");
        push_wide(out, offsets[i] as u128);
        out.push_str(") \"");
        let mut head: Vec<u8> = Vec::new();
        head.push((n % 256) as u8);
        head.push((n / 256 % 256) as u8);
        head.push((n / 65536 % 256) as u8);
        head.push((n / 16777216 % 256) as u8);
        proof {
            byte_len_is_encoded_len(all[i as int]);
            assert(head@ =~= le_bytes(byte_len(all[i as int])));
        }
        push_hex(out, head.as_slice());
        push_hex(out, bytes);
        out.push_str("\")\n");
        i += 1;
    }
}

} // verus!
