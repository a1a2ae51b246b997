//! What the backend writes opens with a module: everything after the first line is
//! appended.

use vstd::prelude::*;
use vstd::utf8::encode_utf8;

use super::data::{
    heap_start, hex_bytes, le_bytes, segments, string_offset,
};
use super::host::{
    forwarded, host_entry, host_glue, host_id, host_import, host_parts, host_type, param_decls,
    param_types, platform_id,
};
use super::layout::{Sig, WasmTy};
use super::module::{
    any_host_alloc, drop_entries, function_entries, glues_text, imports_text, is_module,
    lambda_entries, main_of, module_cx, module_functions, module_head, module_text, sig_params,
    start_text, table_text, types_text, used_platform, MEMORY_MAX_PAGES, MEMORY_PAGES,
};
use super::pieces::Cx;
use super::runtime::{bytes_runtime, memory_runtime, string_runtime, STRING_ORDER};
use super::shapes::{
    drop_function, drop_functions, drop_name, release_captures, release_slots, tag_branches,
    tags_of, Drops, Shape,
};
use super::text::{body_start, comment_end, opens_module, refusal, MAX_TEXT};
use crate::ir::FnNode;
use crate::manifest::{describes, manifest_json, CapabilityManifest};
use crate::platform::Platform;
use crate::source::byte_len;
use crate::strings::decimal;
use crate::types::Ty;

verus! {

/// Whether `t` begins with `p`.
pub open spec fn begins(t: Seq<char>, p: Seq<char>) -> bool {
    p.len() <= t.len() && t.take(p.len() as int) == p
}

broadcast proof fn appending_keeps_the_start(a: Seq<char>, b: Seq<char>, p: Seq<char>)
    ensures
        begins(a, p) ==> #[trigger] begins(a + b, p),
{
    if begins(a, p) {
        assert((a + b).take(p.len() as int) =~= a.take(p.len() as int));
    }
}

broadcast proof fn pushing_keeps_the_start(a: Seq<char>, c: char, p: Seq<char>)
    ensures
        begins(a, p) ==> #[trigger] begins(a.push(c), p),
{
    if begins(a, p) {
        assert(a.push(c).take(p.len() as int) =~= a.take(p.len() as int));
    }
}

broadcast group group_starts {
    appending_keeps_the_start,
    pushing_keeps_the_start,
}

proof fn lemma_hex_bytes(out: Seq<char>, s: Seq<u8>, p: Seq<char>)
    requires
        begins(out, p),
    ensures
        begins(hex_bytes(out, s), p),
    decreases s.len(),
{
    broadcast use group_starts;

    if s.len() > 0 {
        lemma_hex_bytes(out, s.drop_last(), p);
    }
}

proof fn lemma_segments(out: Seq<char>, strings: Seq<Seq<char>>, n: int, p: Seq<char>)
    requires
        begins(out, p),
    ensures
        begins(segments(out, strings, n), p),
    decreases n,
{
    broadcast use group_starts;

    if n > 0 {
        lemma_segments(out, strings, n - 1, p);
        let before = segments(out, strings, n - 1);
        let at = string_offset(strings, n - 1);
        let value = strings[n - 1];
        let opened = before + "  (data (i32.const "@ + decimal(at) + ") \""@;
        let sized = hex_bytes(opened, le_bytes(byte_len(value)));
        lemma_hex_bytes(opened, le_bytes(byte_len(value)), p);
        lemma_hex_bytes(sized, encode_utf8(value), p);
    }
}

proof fn lemma_param_types(out: Seq<char>, n: nat, p: Seq<char>)
    requires
        begins(out, p),
    ensures
        begins(param_types(out, n), p),
    decreases n,
{
    broadcast use group_starts;

    if n > 0 {
        lemma_param_types(out, (n - 1) as nat, p);
    }
}

proof fn lemma_param_decls(out: Seq<char>, n: nat, p: Seq<char>)
    requires
        begins(out, p),
    ensures
        begins(param_decls(out, n), p),
    decreases n,
{
    broadcast use group_starts;

    if n > 0 {
        lemma_param_decls(out, (n - 1) as nat, p);
    }
}

proof fn lemma_forwarded(out: Seq<char>, n: nat, p: Seq<char>)
    requires
        begins(out, p),
    ensures
        begins(forwarded(out, n), p),
    decreases n,
{
    broadcast use group_starts;

    if n > 0 {
        lemma_forwarded(out, (n - 1) as nat, p);
    }
}

proof fn lemma_host_import(out: Seq<char>, canonical: Seq<char>, registry: Seq<Platform>, p: Seq<char>)
    requires
        begins(out, p),
    ensures
        begins(host_import(out, canonical, registry), p),
{
    broadcast use group_starts;

    if let (Some(entry), Some((name, func))) = (
        host_entry(canonical, registry),
        host_parts(canonical),
    ) {
        let opened = out + "  (import \"host_"@ + name + "\" \""@ + func + "\" (func "@ + host_id(
            canonical,
        ) + " "@;
        lemma_param_types(opened + "(param "@, entry.params.len(), p);
    }
}

proof fn lemma_host_glue(out: Seq<char>, canonical: Seq<char>, registry: Seq<Platform>, p: Seq<char>)
    requires
        begins(out, p),
    ensures
        begins(host_glue(out, canonical, registry), p),
{
    broadcast use group_starts;

    if let Some(entry) = host_entry(canonical, registry) {
        let first = out + "  (func "@ + platform_id(canonical) + " "@;
        lemma_param_decls(first, entry.params.len(), p);
        let opened = param_decls(first, entry.params.len());
        let typed = if entry.ret is Unit {
            opened + " (result i32)\n"@
        } else {
            opened + " (result "@ + host_type(entry.ret) + ")\n"@
        };
        lemma_forwarded(typed, entry.params.len(), p);
    }
}

proof fn lemma_imports(out: Seq<char>, used: Seq<Seq<char>>, registry: Seq<Platform>, n: nat, p: Seq<char>)
    requires
        begins(out, p),
    ensures
        begins(imports_text(out, used, registry, n), p),
    decreases n,
{
    broadcast use group_starts;

    if n > 0 {
        lemma_imports(out, used, registry, (n - 1) as nat, p);
        lemma_host_import(
            imports_text(out, used, registry, (n - 1) as nat),
            used[n - 1],
            registry,
            p,
        );
    }
}

proof fn lemma_glues(out: Seq<char>, used: Seq<Seq<char>>, registry: Seq<Platform>, n: nat, p: Seq<char>)
    requires
        begins(out, p),
    ensures
        begins(glues_text(out, used, registry, n), p),
    decreases n,
{
    broadcast use group_starts;

    if n > 0 {
        lemma_glues(out, used, registry, (n - 1) as nat, p);
        lemma_host_glue(
            glues_text(out, used, registry, (n - 1) as nat),
            used[n - 1],
            registry,
            p,
        );
    }
}

proof fn lemma_sig_params(out: Seq<char>, s: Seq<WasmTy>, p: Seq<char>)
    requires
        begins(out, p),
    ensures
        begins(sig_params(out, s), p),
    decreases s.len(),
{
    broadcast use group_starts;

    if s.len() > 0 {
        lemma_sig_params(out, s.drop_last(), p);
    }
}

proof fn lemma_types(out: Seq<char>, sigs: Seq<Sig>, n: nat, p: Seq<char>)
    requires
        begins(out, p),
    ensures
        begins(types_text(out, sigs, n), p),
    decreases n,
{
    broadcast use group_starts;

    if n > 0 {
        lemma_types(out, sigs, (n - 1) as nat, p);
        let opened = types_text(out, sigs, (n - 1) as nat) + "  (type $sig_"@ + decimal(
            (n - 1) as nat,
        ) + " (func"@;
        lemma_sig_params(opened, sigs[n - 1].params, p);
    }
}

proof fn lemma_function_entries(out: Seq<char>, names: Seq<Seq<char>>, n: nat, p: Seq<char>)
    requires
        begins(out, p),
    ensures
        begins(function_entries(out, names, n), p),
    decreases n,
{
    broadcast use group_starts;

    if n > 0 {
        lemma_function_entries(out, names, (n - 1) as nat, p);
    }
}

proof fn lemma_lambda_entries(out: Seq<char>, n: nat, p: Seq<char>)
    requires
        begins(out, p),
    ensures
        begins(lambda_entries(out, n), p),
    decreases n,
{
    broadcast use group_starts;

    if n > 0 {
        lemma_lambda_entries(out, (n - 1) as nat, p);
    }
}

proof fn lemma_drop_name(out: Seq<char>, shape: Shape, i: nat, p: Seq<char>)
    requires
        begins(out, p),
    ensures
        begins(drop_name(out, shape, i), p),
{
    broadcast use group_starts;

}

proof fn lemma_drop_entries(out: Seq<char>, cx: Cx, n: nat, p: Seq<char>)
    requires
        begins(out, p),
    ensures
        begins(drop_entries(out, cx, n), p),
    decreases n,
{
    broadcast use group_starts;

    if n > 0 {
        lemma_drop_entries(out, cx, (n - 1) as nat, p);
        lemma_drop_name(
            drop_entries(out, cx, (n - 1) as nat) + " "@,
            cx.drops.keys[n - 1],
            (n - 1) as nat,
            p,
        );
    }
}

proof fn lemma_table(out: Seq<char>, cx: Cx, p: Seq<char>)
    requires
        begins(out, p),
    ensures
        begins(table_text(out, cx), p),
{
    broadcast use group_starts;

    let total = cx.functions.len() + cx.lambdas + cx.drops.keys.len();
    let head = out + "  (table "@ + decimal(total) + " funcref)\n  (elem (i32.const 0)"@;
    let functions = function_entries(head, cx.functions, cx.functions.len());
    lemma_function_entries(head, cx.functions, cx.functions.len(), p);
    lemma_lambda_entries(functions, cx.lambdas, p);
    lemma_drop_entries(lambda_entries(functions, cx.lambdas), cx, cx.drops.keys.len(), p);
}

proof fn lemma_release_slots(out: Seq<char>, indent: Seq<char>, mask: Seq<bool>, base: nat, n: nat, p: Seq<char>)
    requires
        begins(out, p),
    ensures
        begins(release_slots(out, indent, mask, base, n), p),
    decreases n,
{
    broadcast use group_starts;

    if n > 0 {
        lemma_release_slots(out, indent, mask, base, (n - 1) as nat, p);
    }
}

proof fn lemma_release_captures(out: Seq<char>, slots: Seq<(u128, bool)>, n: nat, p: Seq<char>)
    requires
        begins(out, p),
    ensures
        begins(release_captures(out, slots, n), p),
    decreases n,
{
    broadcast use group_starts;

    if n > 0 {
        lemma_release_captures(out, slots, (n - 1) as nat, p);
    }
}

proof fn lemma_tag_branches(out: Seq<char>, tags: Seq<(u32, Seq<bool>)>, n: nat, p: Seq<char>)
    requires
        begins(out, p),
    ensures
        begins(tag_branches(out, tags, n), p),
    decreases n,
{
    broadcast use group_starts;

    if n > 0 {
        lemma_tag_branches(out, tags, (n - 1) as nat, p);
        let (tag, mask) = tags[n - 1];
        let opened = tag_branches(out, tags, (n - 1) as nat) + "    local.get $t i32.const "@
            + decimal(tag as nat) + " i32.eq\n    if\n"@;
        lemma_release_slots(opened, "      "@, mask, 8, mask.len(), p);
    }
}

proof fn lemma_drop_function(out: Seq<char>, t: Drops, i: nat, p: Seq<char>)
    requires
        begins(out, p),
    ensures
        begins(drop_function(out, t, i), p),
{
    broadcast use group_starts;

    let shape = t.keys[i as int];
    let named = drop_name(out + "  (func "@, shape, i);
    lemma_drop_name(out + "  (func "@, shape, i, p);
    match shape {
        Shape::Enum(name) => {
            let opened = named
                + " (param $p i32) (local $t i32)\n    local.get $p i32.load local.set $t\n"@;
            lemma_tag_branches(opened, tags_of(t.enums, name), tags_of(t.enums, name).len(), p);
        },
        Shape::Record { mask } => {
            lemma_release_slots(named + " (param $p i32)\n"@, "    "@, mask, 0, mask.len(), p);
        },
        Shape::Closure { slots, .. } => {
            lemma_release_captures(named + " (param $p i32)\n"@, slots, slots.len(), p);
        },
        _ => {},
    }
}

proof fn lemma_drop_functions(out: Seq<char>, t: Drops, n: nat, p: Seq<char>)
    requires
        begins(out, p),
    ensures
        begins(drop_functions(out, t, n), p),
    decreases n,
{
    if n > 0 {
        lemma_drop_functions(out, t, (n - 1) as nat, p);
        lemma_drop_function(drop_functions(out, t, (n - 1) as nat), t, (n - 1) as nat, p);
    }
}

/// How every module that the backend writes begins.
pub open spec fn module_start() -> Seq<char> {
    ";; Generated by the Emela wasm backend.\n(module\n  (import \"wasi_snapshot_preview1\" \"proc_exit\" (func $proc_exit (param i32)))\n"@
}

proof fn lemma_head(p: Seq<FnNode>, registry: Seq<Platform>)
    ensures
        begins(module_head(p, registry), module_start()),
{
    broadcast use group_starts;

    let cx = module_cx(p);
    let used = used_platform(p);
    let base = heap_start(cx.strings);
    let leak = cx.functions.len() + cx.lambdas;
    let opened = module_start();
    assert(opened.take(opened.len() as int) =~= opened);
    assert(begins(opened, opened));
    let wasi = if used.len() > 0 {
        opened
            + "  (import \"wasi_snapshot_preview1\" \"fd_write\" (func $wasi_fd_write (param i32 i32 i32 i32) (result i32)))\n"@
    } else {
        opened
    };
    lemma_imports(wasi, used, registry, used.len(), opened);
    let imported = imports_text(wasi, used, registry, used.len());
    let memory = imported + "  (memory (export \"memory\") "@ + decimal(MEMORY_PAGES as nat)
        + " "@ + decimal(MEMORY_MAX_PAGES as nat)
        + ")\n  (global $heap (export \"heap_top\") (mut i32) (i32.const "@ + decimal(base)
        + "))\n  (global $free_list (mut i32) (i32.const 0))\n  (global $live (export \"live_bytes\") (mut i32) (i32.const 0))\n"@;
    lemma_segments(memory, cx.strings, cx.strings.len() as int, opened);
    let data = segments(memory, cx.strings, cx.strings.len() as int);
    lemma_types(data, cx.sigs, cx.sigs.len(), opened);
    let types = types_text(data, cx.sigs, cx.sigs.len())
        + "  (type $drop_t (func (param i32)))\n"@;
    lemma_table(types, cx, opened);
    let runtime = memory_runtime(table_text(types, cx), base, leak) + STRING_ORDER@;
    let helpers = bytes_runtime(string_runtime(runtime, leak + 1), leak + 1);
    assert(begins(helpers, opened));
    lemma_glues(helpers, used, registry, used.len(), opened);
}

proof fn lemma_comment_end(s: Seq<char>, i: int, end: int)
    requires
        0 <= i <= end < s.len(),
        forall|k: int| i <= k < end ==> s[k] != '\n' && s[k] != '\r',
        s[end] == '\n',
    ensures
        comment_end(s, i) == end,
    decreases end - i,
{
    if i < end {
        lemma_comment_end(s, i + 1, end);
    }
}

proof fn lemma_start_opens(t: Seq<char>)
    requires
        begins(t, module_start()),
    ensures
        opens_module(t),
{
    let p = module_start();
    reveal_strlit(
        ";; Generated by the Emela wasm backend.\n(module\n  (import \"wasi_snapshot_preview1\" \"proc_exit\" (func $proc_exit (param i32)))\n",
    );
    reveal_strlit("(module");
    assert forall|k: int| 0 <= k < p.len() implies t[k] == #[trigger] p[k] by {
        assert(t.take(p.len() as int)[k] == t[k]);
    }
    assert(t[0] == p[0] && t[1] == p[1] && t[39] == p[39] && t[40] == p[40]);
    assert forall|k: int| 2 <= k < 39 implies t[k] != '\n' && t[k] != '\r' by {
        assert(t[k] == p[k]);
    }
    lemma_comment_end(t, 2, 39);
    assert(body_start(t, 40) == 40);
    assert(body_start(t, 39) == body_start(t, 40));
    assert(body_start(t, 0) == body_start(t, 39));
    let part = t.subrange(40, 47);
    assert forall|k: int| 0 <= k < 7 implies part[k] == #[trigger] "(module"@[k] by {
        assert(part[k] == p[40 + k]);
    }
    assert(part =~= "(module"@);
}

/// The module of a program opens with a module, so that only its length can keep it
/// from the assembler.
pub proof fn written_modules_open_as_modules(p: Seq<FnNode>, registry: Seq<Platform>, text: Seq<char>)
    requires
        is_module(p, registry, text),
    ensures
        opens_module(text),
        refusal(text) is Some <==> encode_utf8(text).len() > MAX_TEXT,
{
    broadcast use group_starts;

    let m = choose|m: CapabilityManifest|
        #[trigger] describes(m, p, registry) && text == module_text(
            p,
            registry,
            manifest_json(m),
        );
    let start = module_start();
    let cx = module_cx(p);
    lemma_head(p, registry);
    let bodies = module_head(p, registry) + module_functions(p).text;
    lemma_drop_functions(bodies, cx.drops, cx.drops.keys.len(), start);
    let drops = drop_functions(bodies, cx.drops, cx.drops.keys.len());
    let ret = match main_of(p) {
        Some(f) => f.ret,
        None => Ty::Unit,
    };
    let exports = start_text(drops, ret)
        + "  (export \"main\" (func $f_main))\n  (export \"_start\" (func $_start))\n"@;
    let allocating = if any_host_alloc(used_platform(p)) {
        exports + "  (export \"alloc\" (func $alloc_host))\n"@
    } else {
        exports
    };
    assert(begins(allocating, start));
    let last = allocating + "  (@custom \"emela:capabilities\" (after last) \""@;
    lemma_hex_bytes(last, encode_utf8(manifest_json(m)), start);
    assert(begins(text, start));
    lemma_start_opens(text);
}

} // verus!
