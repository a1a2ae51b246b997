//! Capability manifest.
//!
//! The manifest is a JSON document that records the program's transitive
//! requirements: platform functions, capabilities, and intrinsics. It is
//! embedded in the WASM binary as a custom section `emela:capabilities`.

use vstd::prelude::*;

use crate::ir::{FnNode, IrProgram};
use crate::ir_walk::{
    first_occurrences_are_the_members, intrinsic_names, platform_names, preorder_program,
    used_intrinsics, used_platform_fns,
};
use crate::json::{json_items, push_json_items};
use crate::platform::{find_platform, lookup_in, platform_entries, Platform, PlatformFn};
use crate::strings::{decimal, increasing, insert_sorted, push_decimal, same, sorted_names, texts};

verus! {

/// The capability manifest.
#[derive(Debug)]
pub struct CapabilityManifest {
    /// Manifest format version.
    pub format: u32,
    /// Platform function canonical names (sorted, deduplicated).
    pub requires_fns: Vec<String>,
    /// Capability identifiers (sorted, deduplicated, lowercase).
    pub capabilities: Vec<String>,
    /// Intrinsic names (sorted, deduplicated).
    pub intrinsics: Vec<String>,
    /// Whether the program has a `main` entry point.
    pub entry: bool,
}

/// The lowercase equivalent of a text, by Unicode's `Lowercase` property.
pub uninterp spec fn lowercase(s: Seq<char>) -> Seq<char>;

/// `str::to_lowercase` of the standard library. The result depends on the text
/// alone.
#[verifier::external_body]
fn lowercase_of(s: &str) -> (r: String)
    ensures
        r@ == lowercase(s@),
{
    s.to_lowercase()
}

/// Whether `x` is the lowercase capability of a platform function that `p`
/// uses.
pub open spec fn is_capability_of(p: Seq<FnNode>, registry: Seq<Platform>, x: Seq<char>) -> bool {
    exists|name: Seq<char>|
        platform_names(preorder_program(p)).contains(name) && (#[trigger] find_platform(
            registry,
            name,
        ) matches Some(e) && x == lowercase(e.capability))
}

/// Whether a program has a function called `main`.
pub open spec fn has_main(p: Seq<FnNode>) -> bool {
    exists|i: int| 0 <= i < p.len() && (#[trigger] p[i]).name == "main"@
}

/// Whether a manifest says what a program needs of its host.
pub open spec fn describes(m: CapabilityManifest, p: Seq<FnNode>, registry: Seq<Platform>) -> bool {
    &&& m.format == 1
    &&& increasing(texts(m.requires_fns@))
    &&& forall|x: Seq<char>|
        texts(m.requires_fns@).contains(x) <==> platform_names(preorder_program(p)).contains(x)
    &&& increasing(texts(m.capabilities@))
    &&& forall|x: Seq<char>|
        texts(m.capabilities@).contains(x) <==> is_capability_of(p, registry, x)
    &&& increasing(texts(m.intrinsics@))
    &&& forall|x: Seq<char>|
        texts(m.intrinsics@).contains(x) <==> intrinsic_names(preorder_program(p)).contains(x)
    &&& m.entry == has_main(p)
}

/// Computes the capability manifest for a program.
pub fn compute_manifest(program: &IrProgram, platform_registry: &Vec<PlatformFn>) -> (r:
    CapabilityManifest)
    ensures
        describes(r, program@, platform_entries(platform_registry@)),
{
    let used_platform = used_platform_fns(program);
    let used_intrinsic = used_intrinsics(program);
    let requires_fns = sorted_names(&used_platform);
    let intrinsics = sorted_names(&used_intrinsic);
    proof {
        first_occurrences_are_the_members(platform_names(preorder_program(program@)));
        first_occurrences_are_the_members(intrinsic_names(preorder_program(program@)));
    }
    let capabilities = capabilities_of(&used_platform, platform_registry);
    let entry = program_has_main(program);
    CapabilityManifest { format: 1, requires_fns, capabilities, intrinsics, entry }
}

fn program_has_main(program: &IrProgram) -> (r: bool)
    ensures
        r == has_main(program@),
{
    let mut i: usize = 0;
    while i < program.functions.len()
        invariant
            i <= program.functions.len(),
            forall|j: int| 0 <= j < i ==> (#[trigger] program@[j]).name != "main"@,
        decreases program.functions.len() - i,
    {
        assert(program@[i as int] == program.functions@[i as int]@);
        if same(program.functions[i].name.as_str(), "main") {
            return true;
        }
        i += 1;
    }
    false
}

/// The lowercase capabilities of the named functions, sorted.
fn capabilities_of(names: &Vec<String>, registry: &Vec<PlatformFn>) -> (r: Vec<String>)
    ensures
        increasing(texts(r@)),
        forall|x: Seq<char>|
            texts(r@).contains(x) <==> exists|name: Seq<char>|
                texts(names@).contains(name) && (#[trigger] find_platform(
                    platform_entries(registry@),
                    name,
                ) matches Some(e) && x == lowercase(e.capability)),
{
    let ghost reg = platform_entries(registry@);
    let ghost all = texts(names@);
    let mut out: Vec<String> = Vec::new();
    let mut i: usize = 0;
    assert(texts(out@) =~= Seq::<Seq<char>>::empty());
    while i < names.len()
        invariant
            i <= names.len(),
            reg == platform_entries(registry@),
            all == texts(names@),
            increasing(texts(out@)),
            forall|x: Seq<char>|
                texts(out@).contains(x) <==> exists|j: int|
                    0 <= j < i && (find_platform(reg, #[trigger] all[j]) matches Some(e) && x
                        == lowercase(e.capability)),
        decreases names.len() - i,
    {
        let ghost before_insert = texts(out@);
        let found = lookup_in(registry, names[i].as_str());
        if let Some(entry) = found {
            let capability = lowercase_of(entry.capability.as_str());
            insert_sorted(&mut out, capability);
        }
        proof {
            assert(all[i as int] == names@[i as int]@);
            assert forall|x: Seq<char>|
                texts(out@).contains(x) <==> exists|j: int|
                    0 <= j < i + 1 && (find_platform(reg, #[trigger] all[j]) matches Some(e) && x
                        == lowercase(e.capability)) by {
                if before_insert.contains(x) {
                    let j = choose|j: int|
                        0 <= j < i && (find_platform(reg, #[trigger] all[j]) matches Some(e) && x
                            == lowercase(e.capability));
                    assert(0 <= j < i + 1);
                }
            }
        }
        i += 1;
    }
    proof {
        assert forall|x: Seq<char>|
            texts(out@).contains(x) <==> exists|name: Seq<char>|
                all.contains(name) && (#[trigger] find_platform(reg, name) matches Some(e) && x
                    == lowercase(e.capability)) by {
            if texts(out@).contains(x) {
                let j = choose|j: int|
                    0 <= j < all.len() && (find_platform(reg, #[trigger] all[j]) matches Some(e)
                        && x == lowercase(e.capability));
                assert(all.contains(all[j]));
            }
            if exists|name: Seq<char>|
                all.contains(name) && (#[trigger] find_platform(reg, name) matches Some(e) && x
                    == lowercase(e.capability)) {
                let name = choose|name: Seq<char>|
                    all.contains(name) && (#[trigger] find_platform(reg, name) matches Some(e) && x
                        == lowercase(e.capability));
                let j = choose|j: int| 0 <= j < all.len() && all[j] == name;
                assert(find_platform(reg, all[j]) == find_platform(reg, name));
            }
        }
    }
    out
}

/// The manifest as compact JSON.
pub open spec fn manifest_json(m: CapabilityManifest) -> Seq<char> {
    "{\"format\":"@ + decimal(m.format as nat) + ",\"requires\":["@ + json_items(
        texts(m.requires_fns@),
    ) + "],\"capabilities\":["@ + json_items(texts(m.capabilities@)) + "],\"intrinsics\":["@
        + json_items(texts(m.intrinsics@)) + "],\"entry\":"@ + (if m.entry {
        "true"@
    } else {
        "false"@
    }) + "}"@
}

/// Serializes the manifest to compact JSON (deterministic encoding).
pub fn serialize_manifest(manifest: &CapabilityManifest) -> (r: String)
    ensures
        r@ == manifest_json(*manifest),
{
    let mut out = String::new();
    out.push_str("{\"format\":");
    push_decimal(&mut out, manifest.format as u64);
    out.push_str(",\"requires\":[");
    push_json_items(&mut out, &manifest.requires_fns);
    out.push_str("],\"capabilities\":[");
    push_json_items(&mut out, &manifest.capabilities);
    out.push_str("],\"intrinsics\":[");
    push_json_items(&mut out, &manifest.intrinsics);
    out.push_str("],\"entry\":");
    if manifest.entry {
        out.push_str("true");
    } else {
        out.push_str("false");
    }
    out.push_str("}");
    assert(out@ =~= manifest_json(*manifest));
    out
}

} // verus!
