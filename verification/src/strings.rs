//! Text primitives: appending, joining, decimal rendering and ordering.

use vstd::prelude::*;

verus! {

/// `String::push` of the standard library: appends one character.
pub assume_specification[ std::string::String::push ](s: &mut std::string::String, c: char)
    ensures
        final(s)@ == old(s)@.push(c),
;

/// `String::push_str` of the standard library: appends a string slice.
pub assume_specification[ std::string::String::push_str ](s: &mut std::string::String, t: &str)
    ensures
        final(s)@ == old(s)@ + t@,
;

/// What `{:?}` prints for the text `s`: the text in double quotes, with the
/// escapes of `str::escape_debug`.
pub uninterp spec fn debug_text(s: Seq<char>) -> Seq<char>;

/// `{:?}` of the standard library on a `str`. The result depends on the text
/// alone; which characters are escaped, and how, is left to that function.
#[verifier::external_body]
pub(crate) fn debug_string(s: &str) -> (r: String)
    ensures
        r@ == debug_text(s@),
{
    format!("{:?}", s)
}

/// The texts a list of strings holds.
pub open spec fn texts(v: Seq<String>) -> Seq<Seq<char>> {
    v.map_values(|s: String| s@)
}

/// `==` of the standard library on `str`: whether two strings hold the same
/// text.
#[verifier::external_body]
pub(crate) fn same(a: &str, b: &str) -> (r: bool)
    ensures
        r == (a@ == b@),
{
    a == b
}

/// An owned copy of `s`.
pub fn owned(s: &str) -> (r: String)
    ensures
        r@ == s@,
{
    s.to_owned()
}

/// Whether a text is empty.
pub fn no_text(s: &str) -> (r: bool)
    ensures
        r == (s@.len() == 0),
{
    proof {
        reveal_strlit("");
        assert(s@.len() == 0 ==> s@ =~= ""@);
    }
    same(s, "")
}

/// The text of a decimal digit.
pub open spec fn digit(d: nat) -> char {
    ((48 + d % 10) as u8) as char
}

/// `n` in decimal, without leading zeros.
pub open spec fn decimal(n: nat) -> Seq<char>
    decreases n,
{
    if n < 10 {
        seq![digit(n)]
    } else {
        decimal(n / 10).push(digit(n % 10))
    }
}

/// `i` in decimal, with a minus sign when it is negative.
pub open spec fn decimal_int(i: int) -> Seq<char> {
    if i < 0 {
        seq!['-'] + decimal((-i) as nat)
    } else {
        decimal(i as nat)
    }
}

/// Appends `n` in decimal.
pub fn push_decimal(out: &mut String, n: u64)
    ensures
        final(out)@ == old(out)@ + decimal(n as nat),
    decreases n,
{
    if n >= 10 {
        push_decimal(out, n / 10);
    }
    let d: u8 = (n % 10) as u8;
    out.push((48 + d) as char);
    proof {
        assert(digit(n as nat % 10) == (48 + d) as char);
        assert(digit(n as nat) == (48 + d) as char);
        assert(out@ =~= old(out)@ + decimal(n as nat));
    }
}

/// Appends a wide `n` in decimal.
pub fn push_wide(out: &mut String, n: u128)
    ensures
        final(out)@ == old(out)@ + decimal(n as nat),
    decreases n,
{
    if n >= 10 {
        push_wide(out, n / 10);
    }
    let d: u8 = (n % 10) as u8;
    out.push((48 + d) as char);
    proof {
        assert(digit(n as nat % 10) == (48 + d) as char);
        assert(digit(n as nat) == (48 + d) as char);
        assert(out@ =~= old(out)@ + decimal(n as nat));
    }
}

/// Appends `i` in decimal.
pub fn push_decimal_int(out: &mut String, i: i32)
    ensures
        final(out)@ == old(out)@ + decimal_int(i as int),
{
    if i < 0 {
        out.push('-');
        let n: i64 = -(i as i64);
        push_decimal(out, n as u64);
        assert(out@ =~= old(out)@ + decimal_int(i as int));
    } else {
        push_decimal(out, i as u64);
    }
}

/// `parts` one after another, with `sep` between neighbours.
pub open spec fn joined(parts: Seq<Seq<char>>, sep: Seq<char>) -> Seq<char>
    decreases parts.len(),
{
    if parts.len() == 0 {
        Seq::empty()
    } else if parts.len() == 1 {
        parts[0]
    } else {
        joined(parts.drop_last(), sep) + sep + parts.last()
    }
}

/// Joins `parts` with `sep`.
pub fn join(parts: &Vec<String>, sep: &str) -> (r: String)
    ensures
        r@ == joined(texts(parts@), sep@),
{
    let mut out = String::new();
    let mut i: usize = 0;
    while i < parts.len()
        invariant
            i <= parts.len(),
            out@ == joined(texts(parts@).take(i as int), sep@),
        decreases parts.len() - i,
    {
        if i > 0 {
            out.push_str(sep);
        }
        out.push_str(parts[i].as_str());
        proof {
            let t = texts(parts@);
            assert(t.take(i + 1).drop_last() =~= t.take(i as int));
            assert(out@ =~= joined(t.take(i + 1), sep@));
        }
        i += 1;
    }
    assert(texts(parts@).take(parts@.len() as int) =~= texts(parts@));
    out
}

/// `s` repeated `n` times.
pub open spec fn repeated(s: Seq<char>, n: nat) -> Seq<char>
    decreases n,
{
    if n == 0 {
        Seq::empty()
    } else {
        repeated(s, (n - 1) as nat) + s
    }
}

/// Appends `n` copies of `s`.
pub fn push_repeated(out: &mut String, s: &str, n: usize)
    ensures
        final(out)@ == old(out)@ + repeated(s@, n as nat),
{
    let mut i: usize = 0;
    while i < n
        invariant
            i <= n,
            out@ == old(out)@ + repeated(s@, i as nat),
        decreases n - i,
    {
        out.push_str(s);
        i += 1;
        assert(out@ =~= old(out)@ + repeated(s@, i as nat));
    }
}

/// Whether `name` is among `names`.
pub fn contains_name(names: &Vec<String>, name: &str) -> (r: bool)
    ensures
        r == texts(names@).contains(name@),
{
    let mut i: usize = 0;
    while i < names.len()
        invariant
            i <= names.len(),
            forall|j: int| 0 <= j < i ==> texts(names@)[j] != name@,
        decreases names.len() - i,
    {
        if same(names[i].as_str(), name) {
            assert(texts(names@)[i as int] == name@);
            return true;
        }
        i += 1;
    }
    false
}

/// A copy of a list of strings.
pub fn copy_names(names: &Vec<String>) -> (r: Vec<String>)
    ensures
        texts(r@) == texts(names@),
{
    let mut out: Vec<String> = Vec::new();
    let mut i: usize = 0;
    while i < names.len()
        invariant
            i <= names.len(),
            out@.len() == i,
            forall|j: int| 0 <= j < i ==> (#[trigger] out@[j])@ == names@[j]@,
        decreases names.len() - i,
    {
        out.push(names[i].clone());
        i += 1;
    }
    assert(texts(out@) =~= texts(names@));
    out
}

/// The characters of `s`.
pub fn chars_of(s: &str) -> (r: Vec<char>)
    ensures
        r@ == s@,
{
    let mut out: Vec<char> = Vec::new();
    for c in iter: s.chars()
        invariant
            out@ =~= iter.seq().take(iter.index() as int),
            iter.seq() == s@,
    {
        out.push(c);
    }
    out
}

/// Code-point order of texts: the order of `str`, which compares the UTF-8
/// bytes.
pub open spec fn text_lt(a: Seq<char>, b: Seq<char>) -> bool
    decreases a.len(),
{
    if b.len() == 0 {
        false
    } else if a.len() == 0 {
        true
    } else if a[0] != b[0] {
        (a[0] as int) < (b[0] as int)
    } else {
        text_lt(a.drop_first(), b.drop_first())
    }
}

/// No text comes before itself.
pub proof fn text_lt_irreflexive(a: Seq<char>)
    ensures
        !text_lt(a, a),
    decreases a.len(),
{
    if a.len() > 0 {
        text_lt_irreflexive(a.drop_first());
    }
}

/// The order of texts is transitive.
pub proof fn text_lt_transitive(a: Seq<char>, b: Seq<char>, c: Seq<char>)
    requires
        text_lt(a, b),
        text_lt(b, c),
    ensures
        text_lt(a, c),
    decreases a.len(),
{
    if a.len() > 0 && a[0] == b[0] && b[0] == c[0] {
        text_lt_transitive(a.drop_first(), b.drop_first(), c.drop_first());
    }
}

/// Of two different texts one comes before the other.
pub proof fn text_lt_total(a: Seq<char>, b: Seq<char>)
    ensures
        text_lt(a, b) || a == b || text_lt(b, a),
    decreases a.len(),
{
    if a.len() > 0 && b.len() > 0 && a[0] == b[0] {
        text_lt_total(a.drop_first(), b.drop_first());
        if a.drop_first() == b.drop_first() {
            assert(a =~= seq![a[0]] + a.drop_first());
            assert(b =~= seq![b[0]] + b.drop_first());
        }
    } else if a.len() == 0 && b.len() == 0 {
        assert(a =~= b);
    }
}

/// Whether `a` comes before `b`.
pub fn before(a: &str, b: &str) -> (r: bool)
    ensures
        r == text_lt(a@, b@),
{
    let x = chars_of(a);
    let y = chars_of(b);
    assert(a@.skip(0) =~= a@ && b@.skip(0) =~= b@);
    let mut i: usize = 0;
    while i < x.len() && i < y.len() && x[i] == y[i]
        invariant
            i <= x.len(),
            i <= y.len(),
            x@ == a@,
            y@ == b@,
            text_lt(a@, b@) == text_lt(a@.skip(i as int), b@.skip(i as int)),
        decreases x.len() - i,
    {
        proof {
            assert(a@.skip(i as int).drop_first() =~= a@.skip(i + 1));
            assert(b@.skip(i as int).drop_first() =~= b@.skip(i + 1));
        }
        i += 1;
    }
    if i >= y.len() {
        false
    } else if i >= x.len() {
        true
    } else {
        x[i] < y[i]
    }
}

/// Whether each text of `s` comes before the texts that follow it.
pub open spec fn increasing(s: Seq<Seq<char>>) -> bool {
    forall|i: int, j: int| 0 <= i < j < s.len() ==> text_lt(#[trigger] s[i], #[trigger] s[j])
}

/// Two increasing lists with the same members are the same list.
pub proof fn increasing_lists_are_unique(s: Seq<Seq<char>>, t: Seq<Seq<char>>)
    requires
        increasing(s),
        increasing(t),
        forall|x: Seq<char>| s.contains(x) <==> t.contains(x),
    ensures
        s == t,
    decreases s.len(),
{
    if s.len() == 0 {
        if t.len() > 0 {
            assert(t.contains(t[0]));
        }
        assert(s =~= t);
    } else {
        assert(s.contains(s.last()));
        assert(t.contains(s.last()));
        assert(t.contains(t.last()));
        assert(s.contains(t.last()));
        let i = choose|i: int| 0 <= i < s.len() && s[i] == t.last();
        let j = choose|j: int| 0 <= j < t.len() && t[j] == s.last();
        if i < s.len() - 1 && j < t.len() - 1 {
            assert(text_lt(s[i], s[s.len() - 1]));
            assert(text_lt(t[j], t[t.len() - 1]));
            text_lt_transitive(s[i], t[j], s[i]);
            text_lt_irreflexive(s[i]);
        }
        assert(s.last() == t.last());
        let s1 = s.drop_last();
        let t1 = t.drop_last();
        assert forall|x: Seq<char>| s1.contains(x) <==> t1.contains(x) by {
            if s1.contains(x) {
                let k = choose|k: int| 0 <= k < s1.len() && s1[k] == x;
                assert(text_lt(s[k], s[s.len() - 1]));
                text_lt_irreflexive(x);
                assert(s.contains(x));
                let m = choose|m: int| 0 <= m < t.len() && t[m] == x;
                assert(m < t.len() - 1);
                assert(t1[m] == x);
            }
            if t1.contains(x) {
                let k = choose|k: int| 0 <= k < t1.len() && t1[k] == x;
                assert(text_lt(t[k], t[t.len() - 1]));
                text_lt_irreflexive(x);
                assert(t.contains(x));
                let m = choose|m: int| 0 <= m < s.len() && s[m] == x;
                assert(m < s.len() - 1);
                assert(s1[m] == x);
            }
        }
        increasing_lists_are_unique(s1, t1);
        assert(s =~= s1.push(s.last()));
        assert(t =~= t1.push(t.last()));
    }
}

/// Puts `name` at its place in the increasing list `out`, unless it is there.
pub fn insert_sorted(out: &mut Vec<String>, name: String)
    requires
        increasing(texts(old(out)@)),
    ensures
        increasing(texts(final(out)@)),
        forall|x: Seq<char>|
            texts(final(out)@).contains(x) <==> (texts(old(out)@).contains(x) || x == name@),
{
    let ghost t = texts(out@);
    let mut i: usize = 0;
    while i < out.len() && before(out[i].as_str(), name.as_str())
        invariant
            i <= out.len(),
            t == texts(out@),
            out@ == old(out)@,
            forall|j: int| 0 <= j < i ==> text_lt(#[trigger] t[j], name@),
        decreases out.len() - i,
    {
        i += 1;
    }
    if i < out.len() && same(out[i].as_str(), name.as_str()) {
        assert(t[i as int] == name@);
        return ;
    }
    let ghost n = name@;
    out.insert(i, name);
    proof {
        let u = texts(out@);
        assert(u =~= t.insert(i as int, n));
        assert forall|a: int, b: int| 0 <= a < b < u.len() implies text_lt(
            #[trigger] u[a],
            #[trigger] u[b],
        ) by {
            if i < t.len() {
                text_lt_total(t[i as int], n);
            }
            if a == i {
                assert(u[b] == t[b - 1]);
                if b - 1 > i {
                    assert(text_lt(t[i as int], t[b - 1]));
                    text_lt_transitive(n, t[i as int], t[b - 1]);
                }
            } else if b == i {
                assert(u[a] == t[a]);
            } else {
                let a1 = if a < i { a } else { a - 1 };
                let b1 = if b < i { b } else { b - 1 };
                assert(u[a] == t[a1] && u[b] == t[b1]);
                assert(text_lt(t[a1], t[b1]));
            }
        }
        assert forall|x: Seq<char>| u.contains(x) <==> (t.contains(x) || x == n) by {
            if u.contains(x) && x != n {
                let k = choose|k: int| 0 <= k < u.len() && u[k] == x;
                let k1 = if k < i { k } else { k - 1 };
                assert(t[k1] == x);
            }
            if t.contains(x) {
                let k = choose|k: int| 0 <= k < t.len() && t[k] == x;
                let k1 = if k < i { k } else { k + 1 };
                assert(u[k1] == x);
            }
            if x == n {
                assert(u[i as int] == n);
            }
        }
    }
}

/// The names of `names`, sorted and without repeats.
pub fn sorted_names(names: &Vec<String>) -> (r: Vec<String>)
    ensures
        increasing(texts(r@)),
        forall|x: Seq<char>| texts(r@).contains(x) <==> texts(names@).contains(x),
{
    let mut out: Vec<String> = Vec::new();
    let mut i: usize = 0;
    while i < names.len()
        invariant
            i <= names.len(),
            increasing(texts(out@)),
            forall|x: Seq<char>|
                texts(out@).contains(x) <==> texts(names@).take(i as int).contains(x),
        decreases names.len() - i,
    {
        let ghost before_insert = texts(out@);
        insert_sorted(&mut out, names[i].clone());
        proof {
            let t = texts(names@);
            assert(t.take(i + 1) =~= t.take(i as int).push(t[i as int]));
            assert forall|x: Seq<char>|
                texts(out@).contains(x) <==> t.take(i + 1).contains(x) by {
                if t.take(i as int).contains(x) {
                    let k = choose|k: int| 0 <= k < i && t.take(i as int)[k] == x;
                    assert(t.take(i + 1)[k] == x);
                }
                if x == t[i as int] {
                    assert(t.take(i + 1)[i as int] == x);
                }
                if t.take(i + 1).contains(x) && x != t[i as int] {
                    let u = t.take(i + 1);
                    let k = choose|k: int| 0 <= k < u.len() && u[k] == x;
                    assert(t.take(i as int)[k] == x);
                }
            }
        }
        i += 1;
    }
    assert(texts(names@).take(names@.len() as int) =~= texts(names@));
    out
}

/// Whether `s` begins with `prefix`.
pub fn begins_with(s: &str, prefix: &str) -> (r: bool)
    ensures
        r == prefix@.is_prefix_of(s@),
{
    let a = chars_of(s);
    let b = chars_of(prefix);
    if b.len() > a.len() {
        return false;
    }
    let mut i: usize = 0;
    while i < b.len()
        invariant
            i <= b.len() <= a.len(),
            a@ == s@,
            b@ == prefix@,
            forall|k: int| 0 <= k < i ==> a@[k] == b@[k],
        decreases b.len() - i,
    {
        if a[i] != b[i] {
            assert(s@.subrange(0, prefix@.len() as int)[i as int] == a@[i as int]);
            return false;
        }
        i += 1;
    }
    assert(prefix@ =~= s@.subrange(0, prefix@.len() as int));
    true
}

/// The characters from `i` to `j`.
pub fn text_part(chars: &Vec<char>, i: usize, j: usize) -> (r: String)
    requires
        i <= j <= chars@.len(),
    ensures
        r@ == chars@.subrange(i as int, j as int),
{
    let mut out = String::new();
    let mut k: usize = i;
    while k < j
        invariant
            i <= k <= j <= chars@.len(),
            out@ == chars@.subrange(i as int, k as int),
        decreases j - k,
    {
        out.push(chars[k]);
        assert(out@ =~= chars@.subrange(i as int, k + 1));
        k += 1;
    }
    out
}

} // verus!
