//! The platform-function interface.
//!
//! Platform functions are the language-defined set of operations that produce
//! capability effects. The compiler implements none of them; a backend supplies
//! the implementation for the subset it provides. Emela source may not name a
//! backend, so source stays backend-independent.

use vstd::prelude::*;

use crate::intrinsic::{one_type, two_types};
use crate::strings::{copy_names, join, joined, owned, same, texts};
use crate::types::{copy_opt, copy_types, opt_ty, tys, Ty, Type};

verus! {

/// One entry of the platform interface: a qualified name, a signature, and the
/// capability effect it produces.
#[derive(Debug, PartialEq, Eq)]
pub struct PlatformFn {
    pub path: Vec<String>,
    pub name: String,
    pub params: Vec<Type>,
    pub ret: Type,
    /// The error type the host may report. A fallible platform function
    /// delivers host failure through the ordinary `throws` channel; `None`
    /// means the entry cannot fail.
    pub throws: Option<Type>,
    pub capability: String,
}

/// What a [`PlatformFn`] says.
#[verifier::ext_equal]
pub struct Platform {
    pub path: Seq<Seq<char>>,
    pub name: Seq<char>,
    pub params: Seq<Ty>,
    pub ret: Ty,
    pub throws: Option<Ty>,
    pub capability: Seq<char>,
}

impl PlatformFn {
    pub open spec fn view(&self) -> Platform {
        Platform {
            path: texts(self.path@),
            name: self.name@,
            params: tys(self.params@),
            ret: self.ret@,
            throws: opt_ty(self.throws),
            capability: self.capability@,
        }
    }
}

/// What a list of entries says.
pub open spec fn platform_entries(s: Seq<PlatformFn>) -> Seq<Platform> {
    s.map_values(|e: PlatformFn| e@)
}

/// The qualified name of an entry: its path and its name, separated by dots.
pub open spec fn canonical_name(e: Platform) -> Seq<char> {
    let path = joined(e.path, "."@);
    if path.len() == 0 {
        e.name
    } else {
        path + "."@ + e.name
    }
}

impl PlatformFn {
    /// The qualified name used as the ABI key, e.g. `io.write_stdout`.
    pub fn canonical(&self) -> (r: String)
        ensures
            r@ == canonical_name(self@),
    {
        let mut out = join(&self.path, ".");
        if !out.as_str().is_empty() {
            out.push_str(".");
            out.push_str(self.name.as_str());
            out
        } else {
            self.name.clone()
        }
    }

    /// A copy of the entry.
    pub fn copy(&self) -> (r: PlatformFn)
        ensures
            r@ == self@,
    {
        PlatformFn {
            path: copy_names(&self.path),
            name: self.name.clone(),
            params: copy_types(&self.params),
            ret: self.ret.copy(),
            throws: copy_opt(&self.throws),
            capability: self.capability.clone(),
        }
    }
}

/// A named type without arguments.
pub open spec fn named(name: Seq<char>) -> Ty {
    Ty::Enum(name, Seq::empty())
}

/// An entry in a module of the standard library.
pub open spec fn platform_fn(
    module: Seq<char>,
    name: Seq<char>,
    params: Seq<Ty>,
    ret: Ty,
    throws: Option<Ty>,
    capability: Seq<char>,
) -> Platform {
    Platform { path: seq![module], name, params, ret, throws, capability }
}

/// The normative platform interface. Entries may declare an error type to
/// report host failure on the error channel; the first, `io`/`clock` set
/// stays infallible.
pub open spec fn platform_functions() -> Seq<Platform> {
    seq![
        platform_fn("io"@, "write_stdout"@, seq![Ty::String], Ty::Unit, None, "Io"@),
        platform_fn("io"@, "write_stderr"@, seq![Ty::String], Ty::Unit, None, "Io"@),
        platform_fn("clock"@, "monotonic_seconds"@, Seq::empty(), Ty::Int, None, "Clock"@),
        // One synchronous HTTP exchange; the first fallible entry.
        platform_fn("http"@, "request"@, seq![named("Request"@)], named("Response"@), Some(named("HttpError"@)), "Http"@),
        // The raw TCP byte boundary. All but `raw_close` are fallible.
        platform_fn("socket"@, "raw_listen"@, seq![Ty::Int], named("Listener"@), Some(named("SocketError"@)), "Socket"@),
        platform_fn("socket"@, "raw_accept"@, seq![named("Listener"@)], named("Connection"@), Some(named("SocketError"@)), "Socket"@),
        platform_fn("socket"@, "raw_read"@, seq![named("Connection"@), Ty::Int], Ty::Bytes, Some(named("SocketError"@)), "Socket"@),
        platform_fn("socket"@, "raw_write"@, seq![named("Connection"@), Ty::Bytes], Ty::Unit, Some(named("SocketError"@)), "Socket"@),
        platform_fn("socket"@, "raw_close"@, seq![Ty::Int], Ty::Unit, None, "Socket"@),
        // A cryptographically-secure entropy source. Both operations are infallible.
        platform_fn("random"@, "raw_int"@, Seq::empty(), Ty::Int, None, "Random"@),
        platform_fn("random"@, "raw_bytes"@, seq![Ty::Int], Ty::Bytes, None, "Random"@),
    ]
}

/// The first entry of `s` whose canonical name is `canonical`.
pub open spec fn find_platform(s: Seq<Platform>, canonical: Seq<char>) -> Option<Platform>
    decreases s.len(),
{
    if s.len() == 0 {
        None
    } else if canonical_name(s[0]) == canonical {
        Some(s[0])
    } else {
        find_platform(s.drop_first(), canonical)
    }
}

fn register(out: &mut Vec<PlatformFn>, entry: PlatformFn)
    ensures
        platform_entries(final(out)@) == platform_entries(old(out)@).push(entry@),
{
    out.push(entry);
    assert(platform_entries(out@) =~= platform_entries(old(out)@).push(entry@));
}

fn no_types() -> (r: Vec<Type>)
    ensures
        tys(r@) == Seq::<Ty>::empty(),
{
    let v: Vec<Type> = Vec::new();
    assert(tys(v@) =~= Seq::<Ty>::empty());
    v
}

fn named_type(name: &str) -> (r: Type)
    ensures
        r@ == named(name@),
{
    Type::Enum(owned(name), no_types())
}

fn platform_entry(
    module: &str,
    name: &str,
    params: Vec<Type>,
    ret: Type,
    throws: Option<Type>,
    capability: &str,
) -> (r: PlatformFn)
    ensures
        r@ == platform_fn(module@, name@, tys(params@), ret@, opt_ty(throws), capability@),
{
    let mut path: Vec<String> = Vec::new();
    path.push(owned(module));
    let r = PlatformFn {
        path,
        name: owned(name),
        params,
        ret,
        throws,
        capability: owned(capability),
    };
    assert(r@ =~= platform_fn(module@, name@, tys(params@), ret@, opt_ty(throws), capability@));
    r
}

/// The normative platform interface.
pub fn platform_interface() -> (r: Vec<PlatformFn>)
    ensures
        platform_entries(r@) == platform_functions(),
{
    let mut out: Vec<PlatformFn> = Vec::new();
    assert(platform_entries(out@) =~= Seq::<Platform>::empty());
    register(
        &mut out,
        platform_entry("io", "write_stdout", one_type(Type::String), Type::Unit, None, "Io"),
    );
    register(
        &mut out,
        platform_entry("io", "write_stderr", one_type(Type::String), Type::Unit, None, "Io"),
    );
    register(
        &mut out,
        platform_entry("clock", "monotonic_seconds", no_types(), Type::Int, None, "Clock"),
    );
    register(
        &mut out,
        platform_entry("http", "request", one_type(named_type("Request")), named_type("Response"), Some(named_type("HttpError")), "Http"),
    );
    register(
        &mut out,
        platform_entry("socket", "raw_listen", one_type(Type::Int), named_type("Listener"), Some(named_type("SocketError")), "Socket"),
    );
    register(
        &mut out,
        platform_entry("socket", "raw_accept", one_type(named_type("Listener")), named_type("Connection"), Some(named_type("SocketError")), "Socket"),
    );
    register(
        &mut out,
        platform_entry("socket", "raw_read", two_types(named_type("Connection"), Type::Int), Type::Bytes, Some(named_type("SocketError")), "Socket"),
    );
    register(
        &mut out,
        platform_entry("socket", "raw_write", two_types(named_type("Connection"), Type::Bytes), Type::Unit, Some(named_type("SocketError")), "Socket"),
    );
    register(
        &mut out,
        platform_entry("socket", "raw_close", one_type(Type::Int), Type::Unit, None, "Socket"),
    );
    register(
        &mut out,
        platform_entry("random", "raw_int", no_types(), Type::Int, None, "Random"),
    );
    register(
        &mut out,
        platform_entry("random", "raw_bytes", one_type(Type::Int), Type::Bytes, None, "Random"),
    );
    out
}

/// Looks a platform function up by its canonical name (e.g. `io.write_stdout`).
pub fn lookup(canonical: &str) -> (r: Option<PlatformFn>)
    ensures
        match r {
            Some(e) => find_platform(platform_functions(), canonical@) == Some(e@),
            None => find_platform(platform_functions(), canonical@) is None,
        },
{
    let all = platform_interface();
    lookup_in(&all, canonical)
}

/// Looks a platform function up in a given list of entries (e.g. an extended
/// registry that also holds host-interface entries).
pub fn lookup_in(entries: &Vec<PlatformFn>, canonical: &str) -> (r: Option<PlatformFn>)
    ensures
        match r {
            Some(e) => find_platform(platform_entries(entries@), canonical@) == Some(e@),
            None => find_platform(platform_entries(entries@), canonical@) is None,
        },
{
    let ghost s = platform_entries(entries@);
    let mut i: usize = 0;
    assert(s.skip(0) =~= s);
    while i < entries.len()
        invariant
            i <= entries.len(),
            s == platform_entries(entries@),
            find_platform(s, canonical@) == find_platform(s.skip(i as int), canonical@),
        decreases entries.len() - i,
    {
        proof {
            assert(s.skip(i as int)[0] == entries@[i as int]@);
            assert(s.skip(i as int).drop_first() =~= s.skip(i + 1));
        }
        let name = entries[i].canonical();
        if same(name.as_str(), canonical) {
            return Some(entries[i].copy());
        }
        i += 1;
    }
    None
}

/// A canonical name is registered exactly when some entry bears it, and a
/// lookup finds an entry with the canonical name that was asked for.
pub proof fn lookup_finds_the_canonical_entry(s: Seq<Platform>, canonical: Seq<char>)
    ensures
        find_platform(s, canonical) is Some <==> exists|i: int|
            0 <= i < s.len() && canonical_name(#[trigger] s[i]) == canonical,
        find_platform(s, canonical) matches Some(e) ==> canonical_name(e) == canonical
            && s.contains(e),
    decreases s.len(),
{
    if s.len() > 0 && canonical_name(s[0]) != canonical {
        let t = s.drop_first();
        lookup_finds_the_canonical_entry(t, canonical);
        if find_platform(t, canonical) is Some {
            let i = choose|i: int| 0 <= i < t.len() && canonical_name(#[trigger] t[i]) == canonical;
            assert(canonical_name(s[i + 1]) == canonical);
            let e = find_platform(t, canonical)->0;
            let k = choose|k: int| 0 <= k < t.len() && t[k] == e;
            assert(s[k + 1] == e);
        }
        if exists|i: int| 0 <= i < s.len() && canonical_name(#[trigger] s[i]) == canonical {
            let i = choose|i: int| 0 <= i < s.len() && canonical_name(#[trigger] s[i]) == canonical;
            assert(canonical_name(t[i - 1]) == canonical);
        }
    }
}

} // verus!
