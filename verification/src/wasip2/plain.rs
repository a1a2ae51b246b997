//! Core modules that can be wrapped into a component.
//!
//! A core module is read as far as its sections, imports and exports go. Only
//! plain ones are wrapped: they import functions of WASI interfaces, and neither
//! their custom sections nor their exports have a meaning of their own to the
//! encoder of components.

use vstd::prelude::*;
use vstd::utf8::encode_utf8;

verus! {

/// The most bytes of a core module that are wrapped.
pub const MAX_CORE: usize = 1073741824;

/// The number at byte `i`, seven bits to a byte and the lowest first, and where
/// it ends. `k` of its at most five bytes stand before `i`.
pub open spec fn number_at(b: Seq<u8>, i: int, end: int, k: nat) -> Option<(nat, int)>
    decreases 5 - k,
{
    if k >= 5 || i < 0 || i >= end || i >= b.len() {
        None
    } else if b[i] < 128 {
        Some((b[i] as nat, i + 1))
    } else {
        match number_at(b, i + 1, end, k + 1) {
            Some((high, next)) => Some(((b[i] - 128 + 128 * high) as nat, next)),
            None => None,
        }
    }
}

/// A bound on a number of which `k` bytes have been read.
pub open spec fn number_limit(k: nat) -> nat {
    if k == 0 {
        34359738368
    } else if k == 1 {
        268435456
    } else if k == 2 {
        2097152
    } else if k == 3 {
        16384
    } else {
        128
    }
}

fn read_number(b: &Vec<u8>, i: usize, end: usize, k: u8) -> (r: Option<(u64, usize)>)
    requires
        end <= b@.len(),
        k <= 5,
    ensures
        match r {
            Some((n, next)) => number_at(b@, i as int, end as int, k as nat) == Some(
                (n as nat, next as int),
            ) && n < number_limit(k as nat) && i < next <= end,
            None => number_at(b@, i as int, end as int, k as nat) is None,
        },
    decreases 5 - k,
{
    if k >= 5 || i >= end {
        None
    } else if b[i] < 128 {
        Some((b[i] as u64, i + 1))
    } else {
        match read_number(b, i + 1, end, k + 1) {
            Some((high, next)) => Some(((b[i] - 128) as u64 + 128 * high, next)),
            None => None,
        }
    }
}

/// The bytes of the name at byte `i`, which its length stands before: where they
/// start and end.
pub open spec fn name_at(b: Seq<u8>, i: int, end: int) -> Option<(int, int)> {
    match number_at(b, i, end, 0) {
        Some((n, start)) => if start + n <= end {
            Some((start, start + n))
        } else {
            None
        },
        None => None,
    }
}

fn read_name(b: &Vec<u8>, i: usize, end: usize) -> (r: Option<(usize, usize)>)
    requires
        end <= b@.len(),
    ensures
        match r {
            Some((start, stop)) => name_at(b@, i as int, end as int) == Some(
                (start as int, stop as int),
            ) && i < start <= stop <= end,
            None => name_at(b@, i as int, end as int) is None,
        },
{
    match read_number(b, i, end, 0) {
        Some((n, start)) => if n <= (end - start) as u64 {
            Some((start, start + n as usize))
        } else {
            None
        },
        None => None,
    }
}

/// Whether the bytes from `i` to `end` begin with `text`.
pub open spec fn begins(b: Seq<u8>, i: int, end: int, text: Seq<char>) -> bool {
    let t = encode_utf8(text);
    i + t.len() <= end && b.subrange(i, i + t.len()) == t
}

/// Whether the bytes from `i` to `end` are `text`.
pub open spec fn reads(b: Seq<u8>, i: int, end: int, text: Seq<char>) -> bool {
    begins(b, i, end, text) && end - i == encode_utf8(text).len()
}

/// Whether the bytes from `i` to `end` end with `text`.
pub open spec fn ends(b: Seq<u8>, i: int, end: int, text: Seq<char>) -> bool {
    let t = encode_utf8(text);
    i + t.len() <= end && b.subrange(end - t.len(), end) == t
}

fn starts(b: &Vec<u8>, i: usize, end: usize, text: &str) -> (r: bool)
    requires
        i <= end <= b@.len(),
    ensures
        r == begins(b@, i as int, end as int, text@),
{
    let t = text.as_bytes();
    if t.len() > end - i {
        return false;
    }
    let ghost here = b@.subrange(i as int, i + t@.len());
    let mut k: usize = 0;
    while k < t.len()
        invariant
            k <= t.len(),
            i + t.len() <= end <= b.len(),
            t@ == encode_utf8(text@),
            here == b@.subrange(i as int, i + t@.len()),
            forall|j: int| 0 <= j < k ==> here[j] == #[trigger] t@[j],
        decreases t.len() - k,
    {
        if b[i + k] != t[k] {
            assert(here[k as int] != t@[k as int]);
            return false;
        }
        k += 1;
    }
    assert(here =~= t@);
    true
}

fn equals(b: &Vec<u8>, i: usize, end: usize, text: &str) -> (r: bool)
    requires
        i <= end <= b@.len(),
    ensures
        r == reads(b@, i as int, end as int, text@),
{
    starts(b, i, end, text) && end - i == text.as_bytes().len()
}

fn stops(b: &Vec<u8>, i: usize, end: usize, text: &str) -> (r: bool)
    requires
        i <= end <= b@.len(),
    ensures
        r == ends(b@, i as int, end as int, text@),
{
    let n: usize = text.as_bytes().len();
    n <= end - i && starts(b, end - n, end, text)
}

/// Whether the custom section from `i` to `end` is one of debug names, or one of
/// this compiler's.
pub open spec fn is_plain_custom(b: Seq<u8>, i: int, end: int) -> bool {
    name_at(b, i, end) matches Some((start, stop)) && (reads(b, start, stop, "name"@) || begins(
        b,
        start,
        stop,
        "emela:"@,
    ))
}

fn plain_custom(b: &Vec<u8>, i: usize, end: usize) -> (r: bool)
    requires
        end <= b@.len(),
    ensures
        r == is_plain_custom(b@, i as int, end as int),
{
    match read_name(b, i, end) {
        Some((start, stop)) => equals(b, start, stop, "name") || starts(b, start, stop, "emela:"),
        None => false,
    }
}

/// Whether a function can be imported under this name: a free function, a method
/// or the drop of a resource.
pub open spec fn is_plain_import(b: Seq<u8>, i: int, end: int) -> bool {
    !begins(b, i, end, "["@) || begins(b, i, end, "[method]"@) || begins(
        b,
        i,
        end,
        "[resource-drop]"@,
    )
}

/// Where the import at byte `i` ends, if it is one of a function of a WASI 0.2.0
/// interface.
pub open spec fn import_end(b: Seq<u8>, i: int, end: int) -> Option<int> {
    match name_at(b, i, end) {
        Some((m, m_end)) => match name_at(b, m_end, end) {
            Some((f, f_end)) => if begins(b, m, m_end, "wasi:"@) && ends(
                b,
                m,
                m_end,
                "@0.2.0"@,
            ) && is_plain_import(b, f, f_end)
                && f_end < end && b[f_end] == 0 {
                match number_at(b, f_end + 1, end, 0) {
                    Some((_, next)) => Some(next),
                    None => None,
                }
            } else {
                None
            },
            None => None,
        },
        None => None,
    }
}

fn skip_import(b: &Vec<u8>, i: usize, end: usize) -> (r: Option<usize>)
    requires
        end <= b@.len(),
    ensures
        match r {
            Some(next) => import_end(b@, i as int, end as int) == Some(next as int) && next <= end,
            None => import_end(b@, i as int, end as int) is None,
        },
{
    if let Some((m, m_end)) = read_name(b, i, end) {
        if let Some((f, f_end)) = read_name(b, m_end, end) {
            if starts(b, m, m_end, "wasi:") && stops(b, m, m_end, "@0.2.0") && (!starts(b, f, f_end, "[") || starts(
                b,
                f,
                f_end,
                "[method]",
            ) || starts(b, f, f_end, "[resource-drop]")) && f_end < end && b[f_end] == 0 {
                if let Some((_, next)) = read_number(b, f_end + 1, end, 0) {
                    return Some(next);
                }
            }
        }
    }
    None
}

/// Whether the `n` imports from byte `i` on are plain, and end with the section.
pub open spec fn are_plain_imports(b: Seq<u8>, i: int, n: nat, end: int) -> bool
    decreases n,
{
    if n == 0 {
        i == end
    } else {
        import_end(b, i, end) matches Some(next) && are_plain_imports(
            b,
            next,
            (n - 1) as nat,
            end,
        )
    }
}

fn plain_imports(b: &Vec<u8>, i: usize, n: u64, end: usize) -> (r: bool)
    requires
        i <= end <= b@.len(),
    ensures
        r == are_plain_imports(b@, i as int, n as nat, end as int),
{
    let mut at: usize = i;
    let mut left: u64 = n;
    while left > 0
        invariant
            end <= b@.len(),
            are_plain_imports(b@, i as int, n as nat, end as int) == are_plain_imports(
                b@,
                at as int,
                left as nat,
                end as int,
            ),
        decreases left,
    {
        match skip_import(b, at, end) {
            Some(next) => {
                at = next;
                left -= 1;
            },
            None => {
                return false;
            },
        }
    }
    at == end
}

/// Whether an export under this name is an entry point or means nothing to the
/// encoder: names in brackets, of another convention, of the linker and of other
/// allocators mean something.
pub open spec fn is_plain_export(b: Seq<u8>, i: int, end: int) -> bool {
    &&& !begins(b, i, end, "["@)
    &&& !begins(b, i, end, "cm32p2"@)
    &&& !begins(b, i, end, "__"@)
    &&& !begins(b, i, end, "canonical_abi_"@)
    &&& begins(b, i, end, "cabi_"@) ==> reads(b, i, end, "cabi_realloc"@)
}

/// Where the export at byte `i` ends, if it is a plain one.
pub open spec fn export_end(b: Seq<u8>, i: int, end: int) -> Option<int> {
    match name_at(b, i, end) {
        Some((e, e_end)) => if is_plain_export(b, e, e_end) && e_end < end && b[e_end] < 5 {
            match number_at(b, e_end + 1, end, 0) {
                Some((_, next)) => Some(next),
                None => None,
            }
        } else {
            None
        },
        None => None,
    }
}

fn skip_export(b: &Vec<u8>, i: usize, end: usize) -> (r: Option<usize>)
    requires
        end <= b@.len(),
    ensures
        match r {
            Some(next) => export_end(b@, i as int, end as int) == Some(next as int) && next <= end,
            None => export_end(b@, i as int, end as int) is None,
        },
{
    if let Some((e, e_end)) = read_name(b, i, end) {
        if !starts(b, e, e_end, "[") && !starts(b, e, e_end, "cm32p2") && !starts(b, e, e_end, "__")
            && !starts(b, e, e_end, "canonical_abi_") && (!starts(b, e, e_end, "cabi_") || equals(
            b,
            e,
            e_end,
            "cabi_realloc",
        )) && e_end < end && b[e_end] < 5 {
            if let Some((_, next)) = read_number(b, e_end + 1, end, 0) {
                return Some(next);
            }
        }
    }
    None
}

/// Whether the `n` exports from byte `i` on are plain, and end with the section.
pub open spec fn are_plain_exports(b: Seq<u8>, i: int, n: nat, end: int) -> bool
    decreases n,
{
    if n == 0 {
        i == end
    } else {
        export_end(b, i, end) matches Some(next) && are_plain_exports(
            b,
            next,
            (n - 1) as nat,
            end,
        )
    }
}

fn plain_exports(b: &Vec<u8>, i: usize, n: u64, end: usize) -> (r: bool)
    requires
        i <= end <= b@.len(),
    ensures
        r == are_plain_exports(b@, i as int, n as nat, end as int),
{
    let mut at: usize = i;
    let mut left: u64 = n;
    while left > 0
        invariant
            end <= b@.len(),
            are_plain_exports(b@, i as int, n as nat, end as int) == are_plain_exports(
                b@,
                at as int,
                left as nat,
                end as int,
            ),
        decreases left,
    {
        match skip_export(b, at, end) {
            Some(next) => {
                at = next;
                left -= 1;
            },
            None => {
                return false;
            },
        }
    }
    at == end
}

/// Whether the section `id` from `i` to `end` is plain: one of imports, of exports
/// or a custom one has to be, every other is.
pub open spec fn is_plain_section(b: Seq<u8>, id: u8, i: int, end: int) -> bool {
    if id == 0 {
        is_plain_custom(b, i, end)
    } else if id == 2 {
        number_at(b, i, end, 0) matches Some((n, at)) && are_plain_imports(b, at, n, end)
    } else if id == 7 {
        number_at(b, i, end, 0) matches Some((n, at)) && are_plain_exports(b, at, n, end)
    } else {
        true
    }
}

fn plain_section(b: &Vec<u8>, id: u8, i: usize, end: usize) -> (r: bool)
    requires
        i <= end <= b@.len(),
    ensures
        r == is_plain_section(b@, id, i as int, end as int),
{
    if id == 0 {
        plain_custom(b, i, end)
    } else if id == 2 {
        match read_number(b, i, end, 0) {
            Some((n, at)) => plain_imports(b, at, n, end),
            None => false,
        }
    } else if id == 7 {
        match read_number(b, i, end, 0) {
            Some((n, at)) => plain_exports(b, at, n, end),
            None => false,
        }
    } else {
        true
    }
}

proof fn lemma_number(b: Seq<u8>, i: int, end: int, k: nat)
    ensures
        number_at(b, i, end, k) matches Some((_, next)) ==> i < next <= end,
    decreases 5 - k,
{
    if k < 5 {
        lemma_number(b, i + 1, end, k + 1);
    }
}

/// Whether the sections from byte `i` on are plain, and end with the module.
pub open spec fn are_plain_sections(b: Seq<u8>, i: int) -> bool
    decreases b.len() - i,
    via are_plain_sections_decreases
{
    if i < 0 || i >= b.len() {
        i == b.len()
    } else {
        name_at(b, i + 1, b.len() as int) matches Some((start, end)) && is_plain_section(
            b,
            b[i],
            start,
            end,
        ) && are_plain_sections(b, end)
    }
}

#[via_fn]
proof fn are_plain_sections_decreases(b: Seq<u8>, i: int) {
    lemma_number(b, i + 1, b.len() as int, 0);
}

/// The bytes that a core module begins with: its magic number and its version.
pub open spec fn header() -> Seq<u8> {
    seq![0u8, 97u8, 115u8, 109u8, 1u8, 0u8, 0u8, 0u8]
}

/// Whether bytes are a plain core module.
pub open spec fn is_plain_core(b: Seq<u8>) -> bool {
    &&& 8 <= b.len() <= MAX_CORE
    &&& b.take(8) == header()
    &&& are_plain_sections(b, 8)
}

/// Whether bytes are a plain core module.
pub fn plain_core(b: &Vec<u8>) -> (r: bool)
    ensures
        r == is_plain_core(b@),
{
    if b.len() < 8 || b.len() > MAX_CORE {
        return false;
    }
    if b[0] != 0 || b[1] != 97 || b[2] != 115 || b[3] != 109 || b[4] != 1 || b[5] != 0 || b[6] != 0
        || b[7] != 0 {
        proof {
            let t = b@.take(8);
            assert(t[0] == b@[0] && t[1] == b@[1] && t[2] == b@[2] && t[3] == b@[3] && t[4]
                == b@[4] && t[5] == b@[5] && t[6] == b@[6] && t[7] == b@[7]);
        }
        return false;
    }
    assert(b@.take(8) =~= header());
    let mut i: usize = 8;
    while i < b.len()
        invariant
            i <= b.len(),
            are_plain_sections(b@, 8) == are_plain_sections(b@, i as int),
        decreases b.len() - i,
    {
        match read_name(b, i + 1, b.len()) {
            Some((start, end)) => {
                if !plain_section(b, b[i], start, end) {
                    return false;
                }
                i = end;
            },
            None => {
                return false;
            },
        }
    }
    true
}

} // verus!
