//! Platform functions: the glue that calls the host for each.

use vstd::prelude::*;

use super::shapes::{push_symbol, symbol};
use crate::platform::{find_platform, lookup_in, platform_entries, Platform, PlatformFn};
use crate::strings::{begins_with, chars_of, decimal, owned, push_wide, same, text_part};
use crate::types::{tys, Ty, Type};

verus! {

pub const WRITE_STDOUT_GLUE: &'static str = "  (func $plat_io_write_stdout (param $s i32) (result i32)\n    i32.const 0\n    local.get $s\n    i32.const 4\n    i32.add\n    i32.store\n    i32.const 4\n    local.get $s\n    i32.load\n    i32.store\n    i32.const 1\n    i32.const 0\n    i32.const 1\n    i32.const 8\n    call $wasi_fd_write\n    drop\n    i32.const 0)\n";

pub const WRITE_STDERR_GLUE: &'static str = "  (func $plat_io_write_stderr (param $s i32) (result i32)\n    i32.const 0\n    local.get $s\n    i32.const 4\n    i32.add\n    i32.store\n    i32.const 4\n    local.get $s\n    i32.load\n    i32.store\n    i32.const 2\n    i32.const 0\n    i32.const 1\n    i32.const 8\n    call $wasi_fd_write\n    drop\n    i32.const 0)\n";

pub const HTTP_REQUEST_GLUE: &'static str = "  (func $plat_http_request (param $req i32) (result i32)\n    local.get $req\n    call $host_http_request)\n";

pub const SOCKET_RAW_LISTEN_GLUE: &'static str = "  (func $plat_socket_raw_listen (param $port i32) (result i32)\n    local.get $port\n    call $host_socket_raw_listen)\n";

pub const SOCKET_RAW_ACCEPT_GLUE: &'static str = "  (func $plat_socket_raw_accept (param $listener i32) (result i32)\n    local.get $listener\n    call $host_socket_raw_accept)\n";

pub const SOCKET_RAW_READ_GLUE: &'static str = "  (func $plat_socket_raw_read (param $conn i32) (param $max i32) (result i32)\n    local.get $conn\n    local.get $max\n    call $host_socket_raw_read)\n";

pub const SOCKET_RAW_WRITE_GLUE: &'static str = "  (func $plat_socket_raw_write (param $conn i32) (param $data i32) (result i32)\n    local.get $conn\n    local.get $data\n    call $host_socket_raw_write)\n";

pub const SOCKET_RAW_CLOSE_GLUE: &'static str = "  (func $plat_socket_raw_close (param $handle i32) (result i32)\n    local.get $handle\n    call $host_socket_raw_close)\n";

pub const HTTP_REQUEST_IMPORT: &'static str = "  (import \"emela_http\" \"request\" (func $host_http_request (param i32) (result i32)))\n";

pub const SOCKET_RAW_LISTEN_IMPORT: &'static str = "  (import \"emela_socket\" \"raw_listen\" (func $host_socket_raw_listen (param i32) (result i32)))\n";

pub const SOCKET_RAW_ACCEPT_IMPORT: &'static str = "  (import \"emela_socket\" \"raw_accept\" (func $host_socket_raw_accept (param i32) (result i32)))\n";

pub const SOCKET_RAW_READ_IMPORT: &'static str = "  (import \"emela_socket\" \"raw_read\" (func $host_socket_raw_read (param i32 i32) (result i32)))\n";

pub const SOCKET_RAW_WRITE_IMPORT: &'static str = "  (import \"emela_socket\" \"raw_write\" (func $host_socket_raw_write (param i32 i32) (result i32)))\n";

pub const SOCKET_RAW_CLOSE_IMPORT: &'static str = "  (import \"emela_socket\" \"raw_close\" (func $host_socket_raw_close (param i32) (result i32)))\n";

/// The runtime glue of a platform function that this backend provides. The
/// `write` functions take a string pointer to `[len: i32][utf8]`; the scratch
/// for the call lives in the null-guard region. The others forward their
/// arguments to the host, which returns a Result cell it allocated in guest
/// memory.
pub open spec fn glue_text(canonical: Seq<char>) -> Option<Seq<char>> {
    if canonical == "io.write_stdout"@ {
        Some(WRITE_STDOUT_GLUE@)
    } else if canonical == "io.write_stderr"@ {
        Some(WRITE_STDERR_GLUE@)
    } else if canonical == "http.request"@ {
        Some(HTTP_REQUEST_GLUE@)
    } else if canonical == "socket.raw_listen"@ {
        Some(SOCKET_RAW_LISTEN_GLUE@)
    } else if canonical == "socket.raw_accept"@ {
        Some(SOCKET_RAW_ACCEPT_GLUE@)
    } else if canonical == "socket.raw_read"@ {
        Some(SOCKET_RAW_READ_GLUE@)
    } else if canonical == "socket.raw_write"@ {
        Some(SOCKET_RAW_WRITE_GLUE@)
    } else if canonical == "socket.raw_close"@ {
        Some(SOCKET_RAW_CLOSE_GLUE@)
    } else {
        None
    }
}

/// The runtime glue of a platform function that this backend provides.
pub fn platform_glue(canonical: &str) -> (r: Option<&'static str>)
    ensures
        match r {
            Some(text) => glue_text(canonical@) == Some(text@),
            None => glue_text(canonical@) is None,
        },
{
    if same(canonical, "io.write_stdout") {
        Some(WRITE_STDOUT_GLUE)
    } else if same(canonical, "io.write_stderr") {
        Some(WRITE_STDERR_GLUE)
    } else if same(canonical, "http.request") {
        Some(HTTP_REQUEST_GLUE)
    } else if same(canonical, "socket.raw_listen") {
        Some(SOCKET_RAW_LISTEN_GLUE)
    } else if same(canonical, "socket.raw_accept") {
        Some(SOCKET_RAW_ACCEPT_GLUE)
    } else if same(canonical, "socket.raw_read") {
        Some(SOCKET_RAW_READ_GLUE)
    } else if same(canonical, "socket.raw_write") {
        Some(SOCKET_RAW_WRITE_GLUE)
    } else if same(canonical, "socket.raw_close") {
        Some(SOCKET_RAW_CLOSE_GLUE)
    } else {
        None
    }
}

/// The host import that a platform function's glue calls through, if it is
/// backed by a dedicated host function rather than WASI.
pub open spec fn import_text(canonical: Seq<char>) -> Option<Seq<char>> {
    if canonical == "http.request"@ {
        Some(HTTP_REQUEST_IMPORT@)
    } else if canonical == "socket.raw_listen"@ {
        Some(SOCKET_RAW_LISTEN_IMPORT@)
    } else if canonical == "socket.raw_accept"@ {
        Some(SOCKET_RAW_ACCEPT_IMPORT@)
    } else if canonical == "socket.raw_read"@ {
        Some(SOCKET_RAW_READ_IMPORT@)
    } else if canonical == "socket.raw_write"@ {
        Some(SOCKET_RAW_WRITE_IMPORT@)
    } else if canonical == "socket.raw_close"@ {
        Some(SOCKET_RAW_CLOSE_IMPORT@)
    } else {
        None
    }
}

/// The host import that a platform function's glue calls through.
pub fn platform_import(canonical: &str) -> (r: Option<&'static str>)
    ensures
        match r {
            Some(text) => import_text(canonical@) == Some(text@),
            None => import_text(canonical@) is None,
        },
{
    if same(canonical, "http.request") {
        Some(HTTP_REQUEST_IMPORT)
    } else if same(canonical, "socket.raw_listen") {
        Some(SOCKET_RAW_LISTEN_IMPORT)
    } else if same(canonical, "socket.raw_accept") {
        Some(SOCKET_RAW_ACCEPT_IMPORT)
    } else if same(canonical, "socket.raw_read") {
        Some(SOCKET_RAW_READ_IMPORT)
    } else if same(canonical, "socket.raw_write") {
        Some(SOCKET_RAW_WRITE_IMPORT)
    } else if same(canonical, "socket.raw_close") {
        Some(SOCKET_RAW_CLOSE_IMPORT)
    } else {
        None
    }
}

/// The function id of a platform function's glue.
pub open spec fn platform_id(canonical: Seq<char>) -> Seq<char> {
    "$plat_"@ + symbol(canonical)
}

/// The function id of a platform function's glue.
pub fn platform_wasm_name(canonical: &str) -> (r: String)
    ensures
        r@ == platform_id(canonical@),
{
    let mut out = owned("$plat_");
    push_symbol(&mut out, canonical);
    out
}

/// The function id of a host import.
pub open spec fn host_id(canonical: Seq<char>) -> Seq<char> {
    "$host_plat_"@ + symbol(canonical)
}

fn host_wasm_name(canonical: &str) -> (r: String)
    ensures
        r@ == host_id(canonical@),
{
    let mut out = owned("$host_plat_");
    push_symbol(&mut out, canonical);
    out
}

/// The index of the first dot of `s` at or after `i`, or its length.
pub open spec fn next_dot(s: Seq<char>, i: int) -> int
    decreases s.len() - i,
{
    if i >= s.len() || s[i] == '.' {
        i
    } else {
        next_dot(s, i + 1)
    }
}

/// Splits a `host.<name>.<func>` canonical name into `<name>` and `<func>`.
pub open spec fn host_parts(canonical: Seq<char>) -> Option<(Seq<char>, Seq<char>)> {
    let dot = next_dot(canonical, 5);
    if !"host."@.is_prefix_of(canonical) || dot >= canonical.len() {
        None
    } else {
        Some((canonical.subrange(5, dot), canonical.subrange(dot + 1, canonical.len() as int)))
    }
}

fn split_host_canonical(canonical: &str) -> (r: Option<(String, String)>)
    ensures
        match r {
            Some((name, func)) => host_parts(canonical@) == Some((name@, func@)),
            None => host_parts(canonical@) is None,
        },
{
    if !begins_with(canonical, "host.") {
        return None;
    }
    proof {
        reveal_strlit("host.");
    }
    let chars = chars_of(canonical);
    let mut dot: usize = 5;
    while dot < chars.len() && chars[dot] != '.'
        invariant
            5 <= dot <= chars.len(),
            chars@ == canonical@,
            next_dot(canonical@, 5) == next_dot(canonical@, dot as int),
        decreases chars.len() - dot,
    {
        dot += 1;
    }
    if dot == chars.len() {
        return None;
    }
    Some((text_part(&chars, 5, dot), text_part(&chars, dot + 1, chars.len())))
}

/// The registered entry of a `host.*` platform function. The host runtime
/// supplies the actual implementation at instantiation time.
pub open spec fn host_entry(canonical: Seq<char>, registry: Seq<Platform>) -> Option<Platform> {
    if "host."@.is_prefix_of(canonical) {
        find_platform(registry, canonical)
    } else {
        None
    }
}

/// Whether a `host.*` platform function is registered and thus provided.
pub fn host_platform_provided(canonical: &str, registry: &Vec<PlatformFn>) -> (r: bool)
    ensures
        r == host_entry(canonical@, platform_entries(registry@)) is Some,
{
    begins_with(canonical, "host.") && lookup_in(registry, canonical).is_some()
}

/// A type in an import signature: host functions use `i32` for scalar values
/// and pointers.
pub open spec fn host_type(t: Ty) -> Seq<char> {
    match t {
        Ty::Float => "f64"@,
        Ty::Unit => Seq::empty(),
        _ => "i32"@,
    }
}

fn wasm_type_for(ty: &Type) -> (r: &'static str)
    ensures
        r@ == host_type(ty@),
{
    match ty {
        Type::Float => "f64",
        Type::Unit => {
            proof {
                reveal_strlit("");
                assert(""@ =~= Seq::<char>::empty());
            }
            ""
        },
        _ => "i32",
    }
}

/// `i32` for each of `n` parameters, after `out`.
pub open spec fn param_types(out: Seq<char>, n: nat) -> Seq<char>
    decreases n,
{
    if n == 0 {
        out
    } else if n == 1 {
        param_types(out, 0) + "i32"@
    } else {
        param_types(out, (n - 1) as nat) + " i32"@
    }
}

fn push_param_types(out: &mut String, n: usize)
    ensures
        final(out)@ == param_types(old(out)@, n as nat),
{
    let mut i: usize = 0;
    while i < n
        invariant
            i <= n,
            out@ == param_types(old(out)@, i as nat),
        decreases n - i,
    {
        out.push_str(
            if i == 0 {
                "i32"
            } else {
                " i32"
            },
        );
        i += 1;
    }
}

/// The import that a `host.*` platform function lowers to. The import module
/// name follows the `host_<name>` convention.
pub open spec fn host_import(out: Seq<char>, canonical: Seq<char>, registry: Seq<Platform>) -> Seq<char> {
    match (host_entry(canonical, registry), host_parts(canonical)) {
        (Some(entry), Some((name, func))) => {
            let opened = out + "  (import \"host_"@ + name + "\" \""@ + func + "\" (func "@
                + host_id(canonical) + " "@;
            let typed = if entry.params.len() == 0 {
                opened
            } else {
                param_types(opened + "(param "@, entry.params.len()) + ") "@
            };
            let ended = if entry.ret is Unit {
                typed
            } else {
                typed + "(result "@ + host_type(entry.ret) + ")"@
            };
            ended + "))\n"@
        },
        _ => out,
    }
}

/// Appends the import that a `host.*` platform function lowers to.
pub fn push_host_import(out: &mut String, canonical: &str, registry: &Vec<PlatformFn>)
    ensures
        final(out)@ == host_import(old(out)@, canonical@, platform_entries(registry@)),
{
    if !begins_with(canonical, "host.") {
        return;
    }
    if let Some(entry) = lookup_in(registry, canonical) {
        if let Some((name, func)) = split_host_canonical(canonical) {
            let id = host_wasm_name(canonical);
            assert(tys(entry.params@).len() == entry.params@.len());
            out.push_str("  (import \"host_");
            out.push_str(name.as_str());
            out.push_str("\" \"");
            out.push_str(func.as_str());
            out.push_str("\" (func ");
            out.push_str(id.as_str());
            out.push_str(" ");
            if entry.params.len() > 0 {
                out.push_str("(param ");
                push_param_types(out, entry.params.len());
                out.push_str(") ");
            }
            if !matches!(entry.ret, Type::Unit) {
                out.push_str("(result ");
                out.push_str(wasm_type_for(&entry.ret));
                out.push_str(")");
            }
            out.push_str("))\n");
        }
    }
}

/// The declarations of `n` parameters, after `out`.
pub open spec fn param_decls(out: Seq<char>, n: nat) -> Seq<char>
    decreases n,
{
    if n == 0 {
        out
    } else {
        let before = param_decls(out, (n - 1) as nat);
        (if n == 1 {
            before + "(param $p"@
        } else {
            before + " (param $p"@
        }) + decimal((n - 1) as nat) + " i32)"@
    }
}

fn push_param_decls(out: &mut String, n: usize)
    ensures
        final(out)@ == param_decls(old(out)@, n as nat),
{
    let mut i: usize = 0;
    while i < n
        invariant
            i <= n,
            out@ == param_decls(old(out)@, i as nat),
        decreases n - i,
    {
        out.push_str(
            if i == 0 {
                "(param $p"
            } else {
                " (param $p"
            },
        );
        push_wide(out, i as u128);
        out.push_str(" i32)");
        i += 1;
    }
}

/// The instructions that forward `n` parameters, after `out`.
pub open spec fn forwarded(out: Seq<char>, n: nat) -> Seq<char>
    decreases n,
{
    if n == 0 {
        out
    } else {
        forwarded(out, (n - 1) as nat) + "    local.get "@ + decimal((n - 1) as nat) + "\n"@
    }
}

fn push_forwarded(out: &mut String, n: usize)
    ensures
        final(out)@ == forwarded(old(out)@, n as nat),
{
    let mut i: usize = 0;
    while i < n
        invariant
            i <= n,
            out@ == forwarded(old(out)@, i as nat),
        decreases n - i,
    {
        out.push_str("    local.get ");
        push_wide(out, i as u128);
        out.push_str("\n");
        i += 1;
    }
}

/// The runtime glue of a `host.*` platform function: a wrapper that forwards its
/// parameters to the host import. A function that returns `Unit` yields `0`.
pub open spec fn host_glue(out: Seq<char>, canonical: Seq<char>, registry: Seq<Platform>) -> Seq<char> {
    match host_entry(canonical, registry) {
        Some(entry) => {
            let opened = param_decls(
                out + "  (func "@ + platform_id(canonical) + " "@,
                entry.params.len(),
            );
            let typed = if entry.ret is Unit {
                opened + " (result i32)\n"@
            } else {
                opened + " (result "@ + host_type(entry.ret) + ")\n"@
            };
            let called = forwarded(typed, entry.params.len()) + "    call "@ + host_id(canonical)
                + "\n"@;
            let valued = if entry.ret is Unit {
                called + "    i32.const 0\n"@
            } else {
                called
            };
            valued + "  )\n"@
        },
        None => out,
    }
}

/// Appends the runtime glue of a `host.*` platform function.
pub fn push_host_glue(out: &mut String, canonical: &str, registry: &Vec<PlatformFn>)
    ensures
        final(out)@ == host_glue(old(out)@, canonical@, platform_entries(registry@)),
{
    if !begins_with(canonical, "host.") {
        return;
    }
    if let Some(entry) = lookup_in(registry, canonical) {
        let id = platform_wasm_name(canonical);
        let host = host_wasm_name(canonical);
        assert(tys(entry.params@).len() == entry.params@.len());
        out.push_str("  (func ");
        out.push_str(id.as_str());
        out.push_str(" ");
        push_param_decls(out, entry.params.len());
        let unit = matches!(entry.ret, Type::Unit);
        if unit {
            out.push_str(" (result i32)\n");
        } else {
            out.push_str(" (result ");
            out.push_str(wasm_type_for(&entry.ret));
            out.push_str(")\n");
        }
        push_forwarded(out, entry.params.len());
        out.push_str("    call ");
        out.push_str(host.as_str());
        out.push_str("\n");
        if unit {
            out.push_str("    i32.const 0\n");
        }
        out.push_str("  )\n");
    }
}

} // verus!
