//! Scanning of texts: searching, splitting, and reading numbers.

use vstd::prelude::*;

use crate::error::{is_white, is_white_space};

verus! {

/// The first index from `i` on at which `c` stands, or the length.
pub open spec fn index_of(s: Seq<char>, c: char, i: int) -> int
    decreases s.len() - i,
{
    if i < 0 || i >= s.len() || s[i] == c {
        i
    } else {
        index_of(s, c, i + 1)
    }
}

/// The index after the last `c` among the first `n` characters, or 0.
pub open spec fn last_after(s: Seq<char>, c: char, n: nat) -> nat
    decreases n,
{
    if n == 0 || s[n - 1] == c {
        n
    } else {
        last_after(s, c, (n - 1) as nat)
    }
}

/// Whether `p` stands at index `i`.
pub open spec fn stands_at(s: Seq<char>, p: Seq<char>, i: int) -> bool {
    0 <= i && i + p.len() <= s.len() && s.subrange(i, i + p.len()) == p
}

/// The first index from `i` on at which `p` stands, or the length.
pub open spec fn index_of_text(s: Seq<char>, p: Seq<char>, i: int) -> int
    decreases s.len() - i,
{
    if i < 0 || i >= s.len() || stands_at(s, p, i) {
        i
    } else {
        index_of_text(s, p, i + 1)
    }
}

/// The first index from `i` on that is not white space, or the length.
pub open spec fn skip_white(s: Seq<char>, i: int) -> int
    decreases s.len() - i,
{
    if 0 <= i < s.len() && is_white(s[i]) {
        skip_white(s, i + 1)
    } else {
        i
    }
}

/// The first index from `i` on that is white space, or the length.
pub open spec fn skip_word(s: Seq<char>, i: int) -> int
    decreases s.len() - i,
{
    if 0 <= i < s.len() && !is_white(s[i]) {
        skip_word(s, i + 1)
    } else {
        i
    }
}

/// A text without the white space at its ends.
pub open spec fn trimmed(s: Seq<char>) -> Seq<char> {
    let t = crate::error::trimmed_end(s);
    t.skip(skip_white(t, 0))
}

/// A character with an ASCII capital in lower case.
pub open spec fn lower_char(c: char) -> char {
    if 'A' <= c && c <= 'Z' {
        ((c as u8 + 32) as u8) as char
    } else {
        c
    }
}

/// A text with its ASCII capitals in lower case.
pub open spec fn lowered(s: Seq<char>) -> Seq<char> {
    s.map_values(|c: char| lower_char(c))
}

/// The value of a decimal digit.
pub open spec fn digit_value(c: char) -> int {
    c as int - 48
}

/// Whether a text is one or more decimal digits.
pub open spec fn are_digits(s: Seq<char>) -> bool {
    s.len() > 0 && forall|i: int| 0 <= i < s.len() ==> '0' <= #[trigger] s[i] && s[i] <= '9'
}

/// The number that decimal digits stand for.
pub open spec fn number_of(s: Seq<char>) -> int
    decreases s.len(),
{
    if s.len() == 0 {
        0
    } else {
        number_of(s.drop_last()) * 10 + digit_value(s.last())
    }
}

/// A text without the sign `c` at its start.
pub open spec fn unsigned(s: Seq<char>, c: char) -> Seq<char> {
    if s.len() > 0 && s[0] == c {
        s.skip(1)
    } else {
        s
    }
}

/// The port that a text stands for: digits, with an optional `+`.
pub open spec fn port_of(s: Seq<char>) -> Option<u16> {
    let d = unsigned(s, '+');
    if are_digits(d) && number_of(d) <= 65535 {
        Some(number_of(d) as u16)
    } else {
        None
    }
}

/// The signed number that a text stands for: digits, with an optional sign.
pub open spec fn int_of(s: Seq<char>) -> Option<i32> {
    let minus = s.len() > 0 && s[0] == '-';
    let d = if minus {
        s.skip(1)
    } else {
        unsigned(s, '+')
    };
    let n = if minus {
        -number_of(d)
    } else {
        number_of(d)
    };
    if are_digits(d) && i32::MIN <= n <= i32::MAX {
        Some(n as i32)
    } else {
        None
    }
}

/// The first index from `i` on at which `c` stands, or the length.
pub fn find_char(s: &Vec<char>, c: char, i: usize) -> (r: usize)
    requires
        i <= s@.len(),
    ensures
        r == index_of(s@, c, i as int),
        i <= r <= s@.len(),
        r < s@.len() ==> s@[r as int] == c,
{
    let mut k: usize = i;
    while k < s.len() && s[k] != c
        invariant
            i <= k <= s@.len(),
            index_of(s@, c, i as int) == index_of(s@, c, k as int),
        decreases s.len() - k,
    {
        k += 1;
    }
    k
}

/// The index after the last `c`, or 0.
pub fn find_last(s: &Vec<char>, c: char) -> (r: usize)
    ensures
        r == last_after(s@, c, s@.len()),
        r <= s@.len(),
        r > 0 ==> s@[r - 1] == c,
{
    let mut n: usize = s.len();
    while n > 0 && s[n - 1] != c
        invariant
            n <= s@.len(),
            last_after(s@, c, s@.len()) == last_after(s@, c, n as nat),
        decreases n,
    {
        n -= 1;
    }
    n
}

fn stands(s: &Vec<char>, p: &Vec<char>, i: usize) -> (r: bool)
    requires
        i <= s@.len(),
    ensures
        r == stands_at(s@, p@, i as int),
{
    if p.len() > s.len() - i {
        return false;
    }
    let n: usize = s.len();
    let mut k: usize = 0;
    while k < p.len()
        invariant
            k <= p.len(),
            n == s@.len(),
            i + p@.len() <= n,
            forall|j: int| 0 <= j < k ==> s@[i + j] == p@[j],
        decreases p.len() - k,
    {
        if s[i + k] != p[k] {
            assert(s@.subrange(i as int, i + p@.len())[k as int] != p@[k as int]);
            return false;
        }
        k += 1;
    }
    assert(s@.subrange(i as int, i + p@.len()) =~= p@);
    true
}

/// The first index from `i` on at which `p` stands, or the length.
pub fn find_text(s: &Vec<char>, p: &Vec<char>, i: usize) -> (r: usize)
    requires
        i <= s@.len(),
    ensures
        r == index_of_text(s@, p@, i as int),
        i <= r <= s@.len(),
        r < s@.len() ==> stands_at(s@, p@, r as int),
{
    let mut k: usize = i;
    while k < s.len()
        invariant
            i <= k <= s@.len(),
            index_of_text(s@, p@, i as int) == index_of_text(s@, p@, k as int),
        decreases s.len() - k,
    {
        if stands(s, p, k) {
            return k;
        }
        k += 1;
    }
    k
}

/// The first index from `i` on that is not white space, or the length.
pub fn after_white(s: &Vec<char>, i: usize) -> (r: usize)
    requires
        i <= s@.len(),
    ensures
        r == skip_white(s@, i as int),
        i <= r <= s@.len(),
{
    let mut k: usize = i;
    while k < s.len() && is_white_space(s[k])
        invariant
            i <= k <= s@.len(),
            skip_white(s@, i as int) == skip_white(s@, k as int),
        decreases s.len() - k,
    {
        k += 1;
    }
    k
}

/// The first index from `i` on that is white space, or the length.
pub fn after_word(s: &Vec<char>, i: usize) -> (r: usize)
    requires
        i <= s@.len(),
    ensures
        r == skip_word(s@, i as int),
        i <= r <= s@.len(),
{
    let mut k: usize = i;
    while k < s.len() && !is_white_space(s[k])
        invariant
            i <= k <= s@.len(),
            skip_word(s@, i as int) == skip_word(s@, k as int),
        decreases s.len() - k,
    {
        k += 1;
    }
    k
}

/// The characters from `i` to `j`.
pub fn part(s: &Vec<char>, i: usize, j: usize) -> (r: Vec<char>)
    requires
        i <= j <= s@.len(),
    ensures
        r@ == s@.subrange(i as int, j as int),
{
    let mut out: Vec<char> = Vec::new();
    let mut k: usize = i;
    while k < j
        invariant
            i <= k <= j <= s@.len(),
            out@ == s@.subrange(i as int, k as int),
        decreases j - k,
    {
        out.push(s[k]);
        assert(out@ =~= s@.subrange(i as int, k + 1));
        k += 1;
    }
    out
}

/// The characters without the white space at their ends.
pub fn trim(s: &Vec<char>) -> (r: Vec<char>)
    ensures
        r@ == trimmed(s@),
{
    let mut end: usize = s.len();
    assert(s@.take(end as int) =~= s@);
    while end > 0 && is_white_space(s[end - 1])
        invariant
            end <= s@.len(),
            crate::error::trimmed_end(s@) == crate::error::trimmed_end(s@.take(end as int)),
        decreases end,
    {
        assert(s@.take(end as int).drop_last() =~= s@.take(end - 1));
        end -= 1;
    }
    let t = part(s, 0, end);
    assert(t@ =~= s@.take(end as int));
    let start: usize = after_white(&t, 0);
    let r = part(&t, start, t.len());
    assert(r@ =~= trimmed(s@));
    r
}

/// The characters with ASCII capitals in lower case.
pub fn lower(s: &Vec<char>) -> (r: Vec<char>)
    ensures
        r@ == lowered(s@),
{
    let mut out: Vec<char> = Vec::new();
    let mut i: usize = 0;
    while i < s.len()
        invariant
            i <= s.len(),
            out@.len() == i,
            forall|k: int| 0 <= k < i ==> #[trigger] out@[k] == lower_char(s@[k]),
        decreases s.len() - i,
    {
        let c: char = s[i];
        if 'A' <= c && c <= 'Z' {
            let n: u8 = c as u8;
            out.push((n + 32) as char);
        } else {
            out.push(c);
        }
        i += 1;
    }
    assert(out@ =~= lowered(s@));
    out
}

/// The text of characters.
pub fn text_of(s: &Vec<char>) -> (r: String)
    ensures
        r@ == s@,
{
    let r = crate::strings::text_part(s, 0, s.len());
    assert(s@.subrange(0, s@.len() as int) =~= s@);
    r
}

proof fn lemma_number_grows(s: Seq<char>, n: int)
    requires
        are_digits(s),
        0 <= n <= s.len(),
    ensures
        0 <= number_of(s.take(n)) <= number_of(s),
    decreases s.len() - n,
{
    lemma_number_is_positive(s.take(n));
    if n < s.len() {
        lemma_number_grows(s, n + 1);
        assert(s.take(n + 1).drop_last() =~= s.take(n));
        assert(s.take(n + 1).last() == s[n]);
        assert('0' <= s[n] && s[n] <= '9');
    } else {
        assert(s.take(n) =~= s);
    }
}

proof fn lemma_number_is_positive(s: Seq<char>)
    requires
        forall|i: int| 0 <= i < s.len() ==> '0' <= #[trigger] s[i] && s[i] <= '9',
    ensures
        0 <= number_of(s),
    decreases s.len(),
{
    if s.len() > 0 {
        lemma_number_is_positive(s.drop_last());
        assert(s.last() == s[s.len() - 1]);
    }
}

/// The number that the digits from `from` on stand for, if there are any and it
/// is at most `max`.
fn read_digits(s: &Vec<char>, from: usize, max: u64) -> (r: Option<u64>)
    requires
        from <= s@.len(),
        max <= 4294967296,
    ensures
        ({
            let d = s@.subrange(from as int, s@.len() as int);
            match r {
                Some(n) => are_digits(d) && n == number_of(d) && n <= max,
                None => !(are_digits(d) && number_of(d) <= max),
            }
        }),
{
    let ghost d = s@.subrange(from as int, s@.len() as int);
    if from == s.len() {
        return None;
    }
    let mut n: u64 = 0;
    let mut i: usize = from;
    assert(d.take(0).len() == 0);
    while i < s.len()
        invariant
            from <= i <= s@.len(),
            from < s@.len(),
            max <= 4294967296,
            n <= max,
            d == s@.subrange(from as int, s@.len() as int),
            n == number_of(d.take(i - from)),
            forall|k: int| 0 <= k < i - from ==> '0' <= #[trigger] d[k] && d[k] <= '9',
        decreases s.len() - i,
    {
        let c: char = s[i];
        assert(d[i - from] == c);
        if c < '0' || c > '9' {
            return None;
        }
        let v: u64 = (c as u32 - 48) as u64;
        proof {
            assert(d.take(i - from + 1).drop_last() =~= d.take(i - from));
            assert(d.take(i - from + 1).last() == c);
        }
        n = n * 10 + v;
        if n > max {
            proof {
                if are_digits(d) {
                    lemma_number_grows(d, i - from + 1);
                }
            }
            return None;
        }
        i += 1;
    }
    assert(d.take(d.len() as int) =~= d);
    Some(n)
}

/// The port that a text stands for.
pub fn read_port(s: &Vec<char>) -> (r: Option<u16>)
    ensures
        r == port_of(s@),
{
    let from: usize = if s.len() > 0 && s[0] == '+' {
        1
    } else {
        0
    };
    assert(s@.subrange(from as int, s@.len() as int) =~= unsigned(s@, '+'));
    match read_digits(s, from, 65535) {
        Some(n) => Some(n as u16),
        None => None,
    }
}

/// The signed number that a text stands for.
pub fn read_int(s: &Vec<char>) -> (r: Option<i32>)
    ensures
        r == int_of(s@),
{
    if s.len() > 0 && s[0] == '-' {
        assert(s@.subrange(1, s@.len() as int) =~= s@.skip(1));
        match read_digits(s, 1, 2147483648) {
            Some(n) => Some((-(n as i64)) as i32),
            None => None,
        }
    } else {
        let from: usize = if s.len() > 0 && s[0] == '+' {
            1
        } else {
            0
        };
        assert(s@.subrange(from as int, s@.len() as int) =~= unsigned(s@, '+'));
        match read_digits(s, from, 2147483647) {
            Some(n) => Some(n as i32),
            None => {
                proof {
                    let d = unsigned(s@, '+');
                    if are_digits(d) {
                        lemma_number_is_positive(d);
                    }
                }
                None
            },
        }
    }
}

} // verus!
