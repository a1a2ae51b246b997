//! Resolution of the names of top-level functions.
//!
//! A function's full path is its module path followed by its name. A bare name
//! refers only to a function of the referring module: bare names never cross
//! module boundaries. A qualified name refers to a function of which it is a
//! suffix of the full path; outside of its module a function must be public.

use vstd::prelude::*;

use crate::ast::Function;
use crate::strings::{same, texts};
use crate::subst::{path_prefix, push_path_prefix};

verus! {

/// What a name refers to.
#[derive(Debug, Clone, Copy, PartialEq, Eq, Structural)]
pub enum Resolved {
    /// No function.
    Nothing,
    /// The one function at this index.
    One(usize),
    /// More than one function.
    Ambiguous,
    /// A bare name that no function of the referring module has, but an imported
    /// one does.
    BareImported(usize),
}

/// Whether two paths are the same.
pub fn same_path(a: &Vec<String>, b: &Vec<String>) -> (r: bool)
    ensures
        r == (texts(a@) == texts(b@)),
{
    let ghost x = texts(a@);
    let ghost y = texts(b@);
    assert(x.len() == a@.len() && y.len() == b@.len());
    if a.len() != b.len() {
        return false;
    }
    let mut i: usize = 0;
    while i < a.len()
        invariant
            i <= a.len(),
            a@.len() == b@.len(),
            x == texts(a@),
            y == texts(b@),
            forall|k: int| 0 <= k < i ==> x[k] == y[k],
        decreases a.len() - i,
    {
        assert(x[i as int] == a@[i as int]@ && y[i as int] == b@[i as int]@);
        if !same(a[i].as_str(), b[i].as_str()) {
            return false;
        }
        i += 1;
    }
    assert(x =~= y);
    true
}

/// The full path of a function.
pub open spec fn full_path(f: Function) -> Seq<Seq<char>> {
    texts(f.module_segments@).push(f.name@)
}

/// Whether a path ends with some segments.
pub open spec fn ends_with(path: Seq<Seq<char>>, segments: Seq<Seq<char>>) -> bool {
    segments.len() <= path.len() && path.skip(path.len() - segments.len()) == segments
}

/// Whether a qualified name refers to a function.
pub open spec fn is_named(f: Function, segments: Seq<Seq<char>>, module: Seq<Seq<char>>) -> bool {
    ends_with(full_path(f), segments) && (f.is_public || texts(f.module_segments@) == module)
}

/// Whether a bare name refers to a function of the referring module.
pub open spec fn is_local(f: Function, name: Seq<char>, module: Seq<Seq<char>>) -> bool {
    f.name@ == name && texts(f.module_segments@) == module
}

/// The functions that a name refers to, as indices.
pub open spec fn candidates(s: Seq<Function>, segments: Seq<Seq<char>>, module: Seq<Seq<char>>) -> Seq<
    usize,
>
    decreases s.len(),
{
    if s.len() == 0 {
        Seq::empty()
    } else {
        let before = candidates(s.drop_last(), segments, module);
        let here = if segments.len() == 1 {
            is_local(s.last(), segments[0], module)
        } else {
            is_named(s.last(), segments, module)
        };
        if here {
            before.push((s.len() - 1) as usize)
        } else {
            before
        }
    }
}

/// The index of the first function called `name`.
pub open spec fn first_named(s: Seq<Function>, name: Seq<char>) -> Option<usize>
    decreases s.len(),
{
    if s.len() == 0 {
        None
    } else {
        match first_named(s.drop_last(), name) {
            Some(i) => Some(i),
            None => if s.last().name@ == name {
                Some((s.len() - 1) as usize)
            } else {
                None
            },
        }
    }
}

/// What a name refers to from within a module.
pub open spec fn resolution(s: Seq<Function>, segments: Seq<Seq<char>>, module: Seq<Seq<char>>) -> Resolved {
    let found = candidates(s, segments, module);
    if found.len() == 1 {
        Resolved::One(found[0])
    } else if found.len() > 1 {
        Resolved::Ambiguous
    } else if segments.len() == 1 {
        match first_named(s, segments[0]) {
            Some(i) => Resolved::BareImported(i),
            None => Resolved::Nothing,
        }
    } else {
        Resolved::Nothing
    }
}

/// How many functions are called `name`.
pub open spec fn times_named(s: Seq<Function>, name: Seq<char>) -> nat
    decreases s.len(),
{
    if s.len() == 0 {
        0
    } else {
        times_named(s.drop_last(), name) + (if s.last().name@ == name {
            1nat
        } else {
            0
        })
    }
}

/// The name under which a function is emitted: its own, or its mangled full path
/// when it is imported and another function has the same name.
pub open spec fn emit_name(s: Seq<Function>, i: int) -> Seq<char> {
    let f = s[i];
    if f.module_segments@.len() == 0 || times_named(s, f.name@) == 1 {
        f.name@
    } else {
        path_prefix(Seq::empty(), texts(f.module_segments@)) + f.name@
    }
}

fn is_suffix(f: &Function, segments: &Vec<String>) -> (r: bool)
    ensures
        r == ends_with(full_path(*f), texts(segments@)),
{
    let ghost path = full_path(*f);
    let ghost want = texts(segments@);
    proof {
        assert(texts(f.module_segments@).len() == f.module_segments@.len());
        assert(want.len() == segments@.len());
    }
    let m: usize = f.module_segments.len();
    let n: usize = segments.len();
    if n == 0 {
        assert(path.skip(path.len() as int) =~= want);
        return true;
    }
    if n - 1 > m {
        return false;
    }
    let from: usize = m - (n - 1);
    let ghost tail = path.skip(path.len() - want.len());
    assert(tail.last() == f.name@);
    assert(want.last() == segments@[n - 1]@);
    if !same(f.name.as_str(), segments[n - 1].as_str()) {
        return false;
    }
    let mut i: usize = 0;
    while i < n - 1
        invariant
            i <= n - 1,
            n == segments@.len(),
            n >= 1,
            m == f.module_segments@.len(),
            from == m - (n - 1),
            n - 1 <= m,
            path == full_path(*f),
            want == texts(segments@),
            want.len() == n,
            path.len() == m + 1,
            tail == path.skip(path.len() - want.len()),
            forall|k: int| 0 <= k < i ==> tail[k] == want[k],
        decreases n - 1 - i,
    {
        proof {
            assert(tail[i as int] == f.module_segments@[from + i]@);
            assert(want[i as int] == segments@[i as int]@);
        }
        if !same(f.module_segments[from + i].as_str(), segments[i].as_str()) {
            return false;
        }
        i += 1;
    }
    assert(tail =~= want);
    true
}

fn refers(f: &Function, segments: &Vec<String>, module: &Vec<String>) -> (r: bool)
    ensures
        r == if segments@.len() == 1 {
            is_local(*f, texts(segments@)[0], texts(module@))
        } else {
            is_named(*f, texts(segments@), texts(module@))
        },
{
    if segments.len() == 1 {
        assert(texts(segments@)[0] == segments@[0]@);
        same(f.name.as_str(), segments[0].as_str()) && same_path(&f.module_segments, module)
    } else {
        is_suffix(f, segments) && (f.is_public || same_path(&f.module_segments, module))
    }
}

proof fn lemma_first_named(s: Seq<Function>, name: Seq<char>, k: int)
    requires
        0 <= k <= s.len(),
        first_named(s.take(k), name) is Some,
    ensures
        first_named(s, name) == first_named(s.take(k), name),
    decreases s.len() - k,
{
    if k == s.len() {
        assert(s.take(k) =~= s);
    } else {
        assert(s.take(k + 1).drop_last() =~= s.take(k));
        lemma_first_named(s, name, k + 1);
    }
}

fn find_named(s: &Vec<Function>, name: &str) -> (r: Option<usize>)
    ensures
        r == first_named(s@, name@),
        r matches Some(i) ==> i < s@.len(),
{
    let mut i: usize = 0;
    assert(s@.take(0).len() == 0);
    while i < s.len()
        invariant
            i <= s.len(),
            first_named(s@.take(i as int), name@) is None,
        decreases s.len() - i,
    {
        proof {
            assert(s@.take(i + 1).drop_last() =~= s@.take(i as int));
            assert(s@.take(i + 1).last() == s@[i as int]);
        }
        if same(s[i].name.as_str(), name) {
            proof {
                lemma_first_named(s@, name@, i + 1);
            }
            return Some(i);
        }
        i += 1;
    }
    assert(s@.take(s@.len() as int) =~= s@);
    None
}

/// What a name refers to from within a module.
pub fn resolve_in(s: &Vec<Function>, segments: &Vec<String>, module: &Vec<String>) -> (r: Resolved)
    ensures
        r == resolution(s@, texts(segments@), texts(module@)),
        r matches Resolved::One(i) ==> i < s@.len(),
{
    let ghost want = texts(segments@);
    let ghost here = texts(module@);
    let mut found: Vec<usize> = Vec::new();
    let mut i: usize = 0;
    proof {
        assert(s@.take(0).len() == 0);
        assert(found@ =~= candidates(s@.take(0), want, here));
        assert(want.len() == segments@.len());
    }
    while i < s.len()
        invariant
            i <= s.len(),
            want == texts(segments@),
            want.len() == segments@.len(),
            here == texts(module@),
            found@ == candidates(s@.take(i as int), want, here),
            forall|k: int| 0 <= k < found@.len() ==> #[trigger] found@[k] < s@.len(),
        decreases s.len() - i,
    {
        proof {
            assert(s@.take(i + 1).drop_last() =~= s@.take(i as int));
            assert(s@.take(i + 1).last() == s@[i as int]);
        }
        if refers(&s[i], segments, module) {
            found.push(i);
        }
        i += 1;
    }
    assert(s@.take(s@.len() as int) =~= s@);
    if found.len() == 1 {
        Resolved::One(found[0])
    } else if found.len() > 1 {
        Resolved::Ambiguous
    } else if segments.len() == 1 {
        assert(want[0] == segments@[0]@);
        match find_named(s, segments[0].as_str()) {
            Some(i) => Resolved::BareImported(i),
            None => Resolved::Nothing,
        }
    } else {
        Resolved::Nothing
    }
}

/// What a bare name refers to from within a module.
pub fn resolve_name(s: &Vec<Function>, name: &str, module: &Vec<String>) -> (r: Resolved)
    ensures
        r == resolution(s@, seq![name@], texts(module@)),
        r matches Resolved::One(i) ==> i < s@.len(),
{
    let mut segments: Vec<String> = Vec::new();
    segments.push(crate::strings::owned(name));
    assert(texts(segments@) =~= seq![name@]);
    resolve_in(s, &segments, module)
}

fn count_named(s: &Vec<Function>, name: &str) -> (r: usize)
    ensures
        r == times_named(s@, name@),
{
    let mut n: usize = 0;
    let mut i: usize = 0;
    assert(s@.take(0).len() == 0);
    while i < s.len()
        invariant
            i <= s.len(),
            n <= i,
            n == times_named(s@.take(i as int), name@),
        decreases s.len() - i,
    {
        proof {
            assert(s@.take(i + 1).drop_last() =~= s@.take(i as int));
            assert(s@.take(i + 1).last() == s@[i as int]);
        }
        if same(s[i].name.as_str(), name) {
            n += 1;
        }
        i += 1;
    }
    assert(s@.take(s@.len() as int) =~= s@);
    n
}

/// The name under which function `i` is emitted.
pub fn emitted_name(s: &Vec<Function>, i: usize) -> (r: String)
    requires
        i < s@.len(),
    ensures
        r@ == emit_name(s@, i as int),
{
    let f = &s[i];
    if f.module_segments.len() == 0 || count_named(s, f.name.as_str()) == 1 {
        return f.name.clone();
    }
    let mut out = String::new();
    assert(out@ =~= Seq::<char>::empty());
    push_path_prefix(&mut out, &f.module_segments);
    out.push_str(f.name.as_str());
    out
}

/// A bare name never refers to a function of another module.
pub proof fn bare_names_stay_in_their_module(s: Seq<Function>, name: Seq<char>, module: Seq<Seq<char>>)
    requires
        s.len() <= usize::MAX,
    ensures
        resolution(s, seq![name], module) matches Resolved::One(i) ==> i < s.len() && is_local(
            s[i as int],
            name,
            module,
        ),
{
    lemma_candidates(s, seq![name], module);
}

proof fn lemma_candidates(s: Seq<Function>, segments: Seq<Seq<char>>, module: Seq<Seq<char>>)
    requires
        s.len() <= usize::MAX,
    ensures
        forall|k: int|
            0 <= k < candidates(s, segments, module).len() ==> {
                let i = #[trigger] candidates(s, segments, module)[k] as int;
                i < s.len() && (if segments.len() == 1 {
                    is_local(s[i], segments[0], module)
                } else {
                    is_named(s[i], segments, module)
                })
            },
    decreases s.len(),
{
    if s.len() > 0 {
        lemma_candidates(s.drop_last(), segments, module);
        let before = candidates(s.drop_last(), segments, module);
        assert forall|k: int| 0 <= k < candidates(s, segments, module).len() implies ({
            let i = #[trigger] candidates(s, segments, module)[k] as int;
            i < s.len() && (if segments.len() == 1 {
                is_local(s[i], segments[0], module)
            } else {
                is_named(s[i], segments, module)
            })
        }) by {
            if k < before.len() {
                assert(candidates(s, segments, module)[k] == before[k]);
                assert(s.drop_last()[before[k] as int] == s[before[k] as int]);
            }
        }
    }
}

/// A name that resolves resolves to a function of the program.
pub proof fn resolved_functions_exist(s: Seq<Function>, segments: Seq<Seq<char>>, module: Seq<Seq<char>>)
    requires
        s.len() <= usize::MAX,
    ensures
        resolution(s, segments, module) matches Resolved::One(i) ==> i < s.len(),
{
    lemma_candidates(s, segments, module);
    let found = candidates(s, segments, module);
    if found.len() == 1 {
        assert(found[0] as int == candidates(s, segments, module)[0] as int);
    }
}

} // verus!
