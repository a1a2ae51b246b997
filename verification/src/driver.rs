//! What the commands decide: which backend compiles, what is an artifact's code,
//! and how the errors of the frontend are reported.
//!
//! Parsing and type checking hand over a [`Checked`] program: everything that
//! did parse and register, with the errors that were collected on the way. It is
//! lowered only where there is none.

use vstd::prelude::*;

use crate::ast::{Expr, Function, Program};
use crate::ast_walk::{block_steps, steps, visit_block, Step, Visit};
use crate::backend::{
    Artifact, ArtifactKind, Backend, BackendError, BackendOptions, EmitMode, Tier,
};
use crate::error::{
    normalize_errors, normalized, plain, problem_text, problems, Error, Problem,
};
use crate::ir::{FnNode, IrProgram};
use crate::ir_text::{emit_text, program_text};
use crate::js::{js_module, js_rejection, used_platform, JsBackend};
use crate::lower::{lower, lowered_program};
use crate::rc::managed;
use crate::resolve::{resolution, resolve_in, resolve_name, Resolved};
use crate::strings::{contains_name, join, joined, owned, same, texts};
use crate::typed::{TypedFunction, TypedProgram};
use crate::wasm::module::{is_module, wasm_rejection};
use crate::wasm::{is_build_of, WasmBackend};
use vstd::utf8::encode_utf8;

verus! {

/// The backend that compiles when none is asked for.
pub const DEFAULT_BACKEND: &'static str = "js-node";

/// The built-in backends.
#[derive(Debug, Clone, Copy, PartialEq, Eq, Structural)]
pub enum Builtin {
    Wasm,
    Js,
}

/// The registered name that a user-facing backend name stands for.
pub open spec fn canonical_name(name: Seq<char>) -> Seq<char> {
    if name == "js"@ || name == "js-bun"@ {
        "js-node"@
    } else if name == "wasm"@ {
        "wasm-wasi"@
    } else {
        name
    }
}

/// The registered name that a user-facing backend name stands for.
pub fn canonical_backend(name: &str) -> (r: &str)
    ensures
        r@ == canonical_name(name@),
{
    if same(name, "js") || same(name, "js-bun") {
        "js-node"
    } else if same(name, "wasm") {
        "wasm-wasi"
    } else {
        name
    }
}

/// The backend registered under a name.
pub open spec fn registered(name: Seq<char>) -> Option<Builtin> {
    if name == "wasm-wasi"@ {
        Some(Builtin::Wasm)
    } else if name == "js-node"@ {
        Some(Builtin::Js)
    } else {
        None
    }
}

/// What is said of a name that no backend is registered under.
pub open spec fn unknown_backend(name: Seq<char>) -> Problem {
    plain("unknown backend `"@ + name + "`; available backends: wasm-wasi, js-node"@)
}

/// The built-in backend that a user-facing name selects.
pub fn select_backend(name: &str) -> (r: Result<Builtin, Error>)
    ensures
        match r {
            Ok(b) => registered(canonical_name(name@)) == Some(b),
            Err(e) => registered(canonical_name(name@)) is None && e@ == unknown_backend(
                canonical_name(name@),
            ),
        },
{
    let name = canonical_backend(name);
    proof {
        reveal_strlit("wasm-wasi");
        reveal_strlit("js-node");
        assert("wasm-wasi"@.len() == 9 && "js-node"@.len() == 7);
    }
    if same(name, "wasm-wasi") {
        Ok(Builtin::Wasm)
    } else if same(name, "js-node") {
        Ok(Builtin::Js)
    } else {
        let mut message = owned("unknown backend `");
        message.push_str(name);
        message.push_str("`; available backends: wasm-wasi, js-node");
        Err(Error::new(message))
    }
}

impl Builtin {
    /// The name that the backend is registered under.
    pub fn name(self) -> (r: &'static str)
        ensures
            registered(r@) == Some(self),
    {
        proof {
            reveal_strlit("wasm-wasi");
            reveal_strlit("js-node");
            assert("wasm-wasi"@.len() == 9 && "js-node"@.len() == 7);
        }
        match self {
            Builtin::Wasm => "wasm-wasi",
            Builtin::Js => "js-node",
        }
    }

    /// The support level of the backend.
    pub open spec fn level(self) -> Tier {
        match self {
            Builtin::Wasm => Tier::Tier1,
            Builtin::Js => Tier::Tier2,
        }
    }

    /// The support level of the backend.
    pub fn tier(self) -> (r: Tier)
        ensures
            r == self.level(),
    {
        match self {
            Builtin::Wasm => WasmBackend.tier(),
            Builtin::Js => JsBackend.tier(),
        }
    }
}

/// Every backend can be asked for by its own name.
pub proof fn backends_answer_to_their_names(b: Builtin, name: Seq<char>)
    requires
        registered(name) == Some(b),
    ensures
        registered(canonical_name(name)) == Some(b),
{
    reveal_strlit("js");
    reveal_strlit("js-bun");
    reveal_strlit("wasm");
    reveal_strlit("wasm-wasi");
    reveal_strlit("js-node");
    assert("js"@.len() == 2 && "js-bun"@.len() == 6 && "wasm"@.len() == 4);
    assert("wasm-wasi"@.len() == 9 && "js-node"@.len() == 7);
}

/// The built-in backends with their support levels, in display order.
pub fn backends() -> (r: Vec<Builtin>)
    ensures
        r@ == seq![Builtin::Wasm, Builtin::Js],
{
    let mut out: Vec<Builtin> = Vec::new();
    out.push(Builtin::Wasm);
    out.push(Builtin::Js);
    assert(out@ =~= seq![Builtin::Wasm, Builtin::Js]);
    out
}

/// What is noted of a backend that is not fully supported.
pub open spec fn tier_note(name: Seq<char>, tier: Tier) -> Option<Seq<char>> {
    if tier == Tier::Tier1 {
        None
    } else {
        Some("note: backend `"@ + name + "` is "@ + tier.label_text() + " (build + smoke only)"@)
    }
}

/// What to note when building with a backend that is not fully supported.
pub fn note_tier(name: &str, tier: Tier) -> (r: Option<String>)
    ensures
        crate::ir::opt_text(r) == tier_note(name@, tier),
{
    if tier == Tier::Tier1 {
        return None;
    }
    let mut out = owned("note: backend `");
    out.push_str(name);
    out.push_str("` is ");
    out.push_str(tier.label());
    out.push_str(" (build + smoke only)");
    Some(out)
}

/// What `--emit` selects.
pub open spec fn is_emit_mode(emit: Option<Seq<char>>, r: Result<EmitMode, Error>) -> bool {
    match emit {
        None => r matches Ok(mode) && mode == EmitMode::Default,
        Some(value) => if value == "default"@ {
            r matches Ok(mode) && mode == EmitMode::Default
        } else if value == "text"@ {
            r matches Ok(mode) && mode == EmitMode::Text
        } else {
            r matches Err(e) && e@ == plain(
                "unknown --emit value `"@ + value + "` (expected `default` or `text`)"@,
            )
        },
    }
}

/// The mode that `--emit` selects.
pub fn emit_mode(emit: Option<&str>) -> (r: Result<EmitMode, Error>)
    ensures
        is_emit_mode(
            match emit {
                Some(s) => Some(s@),
                None => None,
            },
            r,
        ),
{
    match emit {
        None => Ok(EmitMode::Default),
        Some(value) => {
            if same(value, "default") {
                Ok(EmitMode::Default)
            } else if same(value, "text") {
                Ok(EmitMode::Text)
            } else {
                let mut message = owned("unknown --emit value `");
                message.push_str(value);
                message.push_str("` (expected `default` or `text`)");
                Err(Error::new(message))
            }
        },
    }
}

/// Rejects `--library` for a command other than `check`: the others need a
/// `main` to lower and run.
pub fn reject_library(library: bool, command: &str) -> (r: Result<(), Error>)
    ensures
        match r {
            Ok(_) => !library,
            Err(e) => library && e@ == plain(
                "`--library` is only valid for `check`, not `"@ + command@ + "`"@,
            ),
        },
{
    if library {
        let mut message = owned("`--library` is only valid for `check`, not `");
        message.push_str(command);
        message.push_str("`");
        return Err(Error::new(message));
    }
    Ok(())
}

/// Rejects the flags that have no meaning for `run`, which executes the module
/// rather than emitting a file.
pub fn reject_run_flags(output: bool, emit: bool) -> (r: Result<(), Error>)
    ensures
        match r {
            Ok(_) => !output && !emit,
            Err(e) => if output {
                e@ == plain("`-o`/`--output` is not valid for `run`"@)
            } else {
                emit && e@ == plain("`--emit` is not valid for `run`"@)
            },
        },
{
    if output {
        return Err(Error::new(owned("`-o`/`--output` is not valid for `run`")));
    }
    if emit {
        return Err(Error::new(owned("`--emit` is not valid for `run`")));
    }
    Ok(())
}

/// Rejects a backend for `run` that does not produce a WebAssembly module.
pub fn reject_run_backend(backend: Option<&str>) -> (r: Result<(), Error>)
    ensures
        match (r, backend) {
            (Ok(_), None) => true,
            (Ok(_), Some(name)) => canonical_name(name@) == "wasm-wasi"@,
            (Err(e), Some(name)) => canonical_name(name@) != "wasm-wasi"@ && e@ == plain(
                "`run` executes WebAssembly; backend `"@ + name@
                    + "` is not supported (use `wasm-wasi`)"@,
            ),
            (Err(e), None) => false,
        },
{
    if let Some(name) = backend {
        if !same(canonical_backend(name), "wasm-wasi") {
            let mut message = owned("`run` executes WebAssembly; backend `");
            message.push_str(name);
            message.push_str("` is not supported (use `wasm-wasi`)");
            return Err(Error::new(message));
        }
    }
    Ok(())
}

/// Rejects printing an artifact that is not text.
pub fn reject_printing(kind: &ArtifactKind) -> (r: Result<(), Error>)
    ensures
        match r {
            Ok(_) => !(kind is WasmBinary || kind is WasmComponent),
            Err(e) => (kind is WasmBinary || kind is WasmComponent) && e@ == plain(
                "binary artifact; pass -o FILE to write it to disk"@,
            ),
        },
{
    if kind.is_text() {
        Ok(())
    } else {
        Err(Error::new(owned("binary artifact; pass -o FILE to write it to disk")))
    }
}

/// What the frontend found out about a source.
pub struct Checked {
    /// Everything that parsed and registered.
    pub program: Program,
    pub typed: TypedProgram,
    /// The errors that were collected.
    pub errors: Vec<Error>,
}

/// What errors say, one after the other.
pub open spec fn problem_texts(s: Seq<Problem>) -> Seq<Seq<char>> {
    s.map_values(|e: Problem| problem_text(e))
}

/// Joins collected errors into one, separated by blank lines.
pub fn aggregate_errors(errors: &Vec<Error>) -> (r: Error)
    ensures
        r@ == plain(joined(problem_texts(problems(errors@)), "\n\n"@)),
{
    let ghost want = problem_texts(problems(errors@));
    let mut parts: Vec<String> = Vec::new();
    let mut i: usize = 0;
    while i < errors.len()
        invariant
            i <= errors.len(),
            want == problem_texts(problems(errors@)),
            parts@.len() == i,
            forall|k: int| 0 <= k < i ==> (#[trigger] parts@[k])@ == want[k],
        decreases errors.len() - i,
    {
        assert(want[i as int] == problem_text(errors@[i as int]@));
        parts.push(errors[i].render());
        i += 1;
    }
    assert(texts(parts@) =~= want);
    Error::new(join(&parts, "\n\n"))
}

/// The errors of parsing, of the imports, of the prelude and of type checking,
/// by source position and without duplicates.
pub fn collect_errors(parsed: Vec<Error>, imported: Vec<Error>, prelude: Option<Error>, checked: Vec<
    Error,
>) -> (r: Vec<Error>)
    ensures
        problems(r@) == normalized(
            problems(parsed@) + problems(imported@) + (match prelude {
                Some(e) => seq![e@],
                None => Seq::empty(),
            }) + problems(checked@),
        ),
{
    let ghost second = imported@;
    let ghost last = checked@;
    let mut imported = imported;
    let mut checked = checked;
    let mut all = parsed;
    all.append(&mut imported);
    if let Some(e) = prelude {
        all.push(e);
    }
    all.append(&mut checked);
    assert(problems(all@) =~= problems(parsed@) + problems(second) + (match prelude {
        Some(e) => seq![e@],
        None => Seq::empty(),
    }) + problems(last));
    normalize_errors(all)
}

/// Whether `main` is to be asked for: where declarations were dropped by
/// recovery, it may be among them.
pub fn requires_main(wanted: bool, errors: &Vec<Error>) -> (r: bool)
    ensures
        r == (wanted && errors@.len() == 0),
{
    wanted && errors.len() == 0
}

/// Adds the declarations of the embedded prelude to a program. `errors` are
/// those with which the prelude failed to parse.
pub fn merge_prelude(program: Program, prelude: Program, errors: Vec<Error>) -> (r: (
    Program,
    Option<Error>,
))
    ensures
        match r.1 {
            Some(e) => errors@.len() > 0 && e == errors@[0] && r.0 == program,
            None => errors@.len() == 0 && is_merged(program, prelude, r.0),
        },
{
    let mut errors = errors;
    if errors.len() > 0 {
        let first = errors.remove(0);
        return (program, Some(first));
    }
    let mut prelude = prelude;
    let mut program = program;
    program.functions.append(&mut prelude.functions);
    program.externs.append(&mut prelude.externs);
    program.enums.append(&mut prelude.enums);
    program.records.append(&mut prelude.records);
    program.traits.append(&mut prelude.traits);
    program.impls.append(&mut prelude.impls);
    program.effects.append(&mut prelude.effects);
    (program, None)
}

/// Whether `r` is a program with the declarations of another behind its own.
pub open spec fn is_merged(program: Program, other: Program, r: Program) -> bool {
    &&& r.module == program.module
    &&& r.imports@ == program.imports@
    &&& r.functions@ == program.functions@ + other.functions@
    &&& r.externs@ == program.externs@ + other.externs@
    &&& r.enums@ == program.enums@ + other.enums@
    &&& r.records@ == program.records@ + other.records@
    &&& r.traits@ == program.traits@ + other.traits@
    &&& r.impls@ == program.impls@ + other.impls@
    &&& r.effects@ == program.effects@ + other.effects@
}

/// The first `n` functions without the tests.
pub open spec fn without_tests(s: Seq<Function>, n: nat) -> Seq<Function>
    decreases n,
{
    if n == 0 {
        Seq::empty()
    } else {
        let before = without_tests(s, (n - 1) as nat);
        if s[n - 1].is_test {
            before
        } else {
            before.push(s[n - 1])
        }
    }
}

/// The signatures of the first `n` functions without those of the tests.
pub open spec fn without_test_types(s: Seq<Function>, t: Seq<TypedFunction>, n: nat) -> Seq<
    TypedFunction,
>
    decreases n,
{
    if n == 0 {
        Seq::empty()
    } else {
        let before = without_test_types(s, t, (n - 1) as nat);
        if s[n - 1].is_test {
            before
        } else {
            before.push(t[n - 1])
        }
    }
}

/// Whether `r` is a program without its tests.
pub open spec fn is_stripped(program: Program, typed: TypedProgram, r: (Program, TypedProgram)) -> bool {
    &&& r.0.functions@ == without_tests(program.functions@, program.functions@.len())
    &&& r.0 == (Program { functions: r.0.functions, ..program })
    &&& r.1.functions@ == without_test_types(
        program.functions@,
        typed.functions@,
        typed.functions@.len(),
    )
    &&& r.1 == (TypedProgram { functions: r.1.functions, ..typed })
}

/// Whether one of the first `n` functions has this signature.
pub open spec fn is_paired(s: Seq<Function>, t: Seq<TypedFunction>, n: nat, f: Function, g: TypedFunction) -> bool {
    exists|k: int| 0 <= k < n && #[trigger] s[k] == f && t[k] == g
}

/// No test is left in an artifact, and whatever is left has its own signature.
pub proof fn stripped_programs_hold_no_test(s: Seq<Function>, t: Seq<TypedFunction>, n: nat)
    requires
        n <= s.len(),
        n <= t.len(),
    ensures
        without_tests(s, n).len() == without_test_types(s, t, n).len(),
        forall|i: int|
            0 <= i < without_tests(s, n).len() ==> !(#[trigger] without_tests(s, n)[i]).is_test,
        forall|i: int|
            0 <= i < without_tests(s, n).len() ==> #[trigger] is_paired(
                s,
                t,
                n,
                without_tests(s, n)[i],
                without_test_types(s, t, n)[i],
            ),
    decreases n,
{
    if n > 0 {
        let m = (n - 1) as nat;
        stripped_programs_hold_no_test(s, t, m);
        let rest = without_tests(s, m);
        let rest_types = without_test_types(s, t, m);
        let all = without_tests(s, n);
        let all_types = without_test_types(s, t, n);
        assert forall|i: int| 0 <= i < all.len() implies #[trigger] is_paired(
            s,
            t,
            n,
            all[i],
            all_types[i],
        ) by {
            if i < rest.len() {
                assert(is_paired(s, t, m, rest[i], rest_types[i]));
                let k = choose|k: int|
                    0 <= k < m && #[trigger] s[k] == rest[i] && t[k] == rest_types[i];
                assert(s[k] == all[i]);
            } else {
                assert(s[n - 1] == all[i]);
            }
        }
    }
}

/// Excludes test functions, which are type-checked but never emitted. The
/// signatures are aligned with the functions by index.
pub fn strip_tests(program: Program, typed: TypedProgram) -> (r: (Program, TypedProgram))
    requires
        typed.functions@.len() <= program.functions@.len(),
    ensures
        is_stripped(program, typed, r),
{
    let ghost all = program.functions@;
    let ghost sigs = typed.functions@;
    let mut program = program;
    let mut typed = typed;
    let mut tests: Vec<bool> = Vec::new();
    let mut functions: Vec<Function> = Vec::new();
    for f in iter: program.functions
        invariant
            iter.seq() == all,
            tests@.len() == iter.index(),
            forall|k: int| 0 <= k < iter.index() ==> #[trigger] tests@[k] == all[k].is_test,
            functions@ == without_tests(all, iter.index() as nat),
    {
        tests.push(f.is_test);
        if !f.is_test {
            functions.push(f);
        }
    }
    let mut kept: Vec<TypedFunction> = Vec::new();
    let mut i: usize = 0;
    let n: usize = typed.functions.len();
    for t in iter: typed.functions
        invariant
            iter.seq() == sigs,
            i == iter.index(),
            n == sigs.len(),
            n <= all.len(),
            tests@.len() == all.len(),
            forall|k: int| 0 <= k < all.len() ==> #[trigger] tests@[k] == all[k].is_test,
            kept@ == without_test_types(all, sigs, i as nat),
    {
        if !tests[i] {
            kept.push(t);
        }
        i += 1;
    }
    program.functions = functions;
    typed.functions = kept;
    (program, typed)
}

/// The function that one step of a walk in `module` refers to.
pub open spec fn step_ref(s: Seq<Function>, module: Seq<Seq<char>>, step: Step) -> Option<usize> {
    let r = match step {
        Step::Expr(Expr::Var(name, _)) => resolution(s, seq![name@], module),
        Step::Expr(Expr::Path { segments, .. }) => resolution(s, texts(segments@), module),
        _ => Resolved::Nothing,
    };
    match r {
        Resolved::One(i) => Some(i),
        _ => None,
    }
}

/// A search: the functions that are still to be looked at, and all that have
/// been found.
#[verifier::ext_equal]
pub struct Search {
    pub queue: Seq<usize>,
    pub seen: Seq<usize>,
}

/// A search that comes by the function at `i`.
pub open spec fn found(q: Search, i: usize) -> Search {
    if q.seen.contains(i) {
        q
    } else {
        Search { queue: q.queue.push(i), seen: q.seen.push(i) }
    }
}

/// A search that follows what a walk refers to.
pub open spec fn followed(s: Seq<Function>, module: Seq<Seq<char>>, q: Search, w: Seq<Step>) -> Search
    decreases w.len(),
{
    if w.len() == 0 {
        q
    } else {
        let before = followed(s, module, q, w.drop_last());
        match step_ref(s, module, w.last()) {
            Some(i) => found(before, i),
            None => before,
        }
    }
}

/// Whether a function is the code of a dev dependency.
pub open spec fn is_dev(f: Function, dev_roots: Seq<Seq<char>>) -> bool {
    f.module_segments@.len() > 0 && dev_roots.contains(f.module_segments@[0]@)
}

/// What a search comes by next.
pub open spec fn next_search(s: Seq<Function>, q: Search) -> Search {
    let i = q.queue.last();
    let f = s[i as int];
    followed(
        s,
        texts(f.module_segments@),
        Search { queue: q.queue.drop_last(), seen: q.seen },
        block_steps(Seq::empty(), f.body),
    )
}

/// The first function of a dev dependency that a search comes by within `fuel`
/// functions.
pub open spec fn dev_reached(s: Seq<Function>, dev_roots: Seq<Seq<char>>, q: Search, fuel: nat) -> Option<
    usize,
>
    decreases fuel,
{
    if fuel == 0 || q.queue.len() == 0 {
        None
    } else if is_dev(s[q.queue.last() as int], dev_roots) {
        Some(q.queue.last())
    } else {
        dev_reached(s, dev_roots, next_search(s, q), (fuel - 1) as nat)
    }
}

/// Whether function `i` is the `main` of the compilation root.
pub open spec fn is_main(s: Seq<Function>, i: int) -> bool {
    s[i].module_segments@.len() == 0 && s[i].name@ == "main"@
}

/// The `main` functions among the first `n`.
pub open spec fn mains(s: Seq<Function>, n: nat) -> Seq<usize>
    decreases n,
{
    if n == 0 {
        Seq::empty()
    } else {
        let before = mains(s, (n - 1) as nat);
        if is_main(s, n - 1) {
            before.push((n - 1) as usize)
        } else {
            before
        }
    }
}

/// The first function of a dev dependency that is found to be reachable from
/// `main`. Each function is looked at once.
pub open spec fn dev_in_artifact(s: Seq<Function>, dev_roots: Seq<Seq<char>>) -> Option<usize> {
    let start = mains(s, s.len());
    if dev_roots.len() == 0 {
        None
    } else {
        dev_reached(s, dev_roots, Search { queue: start, seen: start }, s.len())
    }
}

/// What is said of a function of a dev dependency in an artifact.
pub open spec fn dev_problem(f: Function) -> Problem {
    plain(
        "`"@ + joined(texts(f.module_segments@), "."@) + "."@ + f.name@
            + "` is provided by dev-dependency import root `"@ + f.module_segments@[0]@
            + "` and must not be reachable from build artifacts; call it from a `@test` fn only, or move the dependency to `[dependencies]`"@,
    )
}

/// Whether function `k` refers to function `i`.
pub open spec fn refers(s: Seq<Function>, k: int, i: usize) -> bool {
    let w = block_steps(Seq::empty(), s[k].body);
    exists|m: int|
        0 <= m < w.len() && step_ref(s, texts(s[k].module_segments@), #[trigger] w[m]) == Some(i)
}

/// Whether function `i` is reachable from `main` in at most `n` steps.
pub open spec fn reachable_in(s: Seq<Function>, i: usize, n: nat) -> bool
    decreases n,
{
    if n == 0 {
        is_main(s, i as int)
    } else {
        reachable_in(s, i, (n - 1) as nat) || exists|k: usize|
            k < s.len() && reachable_in(s, k, (n - 1) as nat) && #[trigger] refers(
                s,
                k as int,
                i,
            )
    }
}

/// Whether function `i` is reachable from `main`.
pub open spec fn reachable(s: Seq<Function>, i: usize) -> bool {
    exists|n: nat| reachable_in(s, i, n)
}

/// Whether a search is under way: what it has looked at is not a dev dependency,
/// and what that refers to is seen.
spec fn under_way(s: Seq<Function>, roots: Seq<Seq<char>>, q: Search) -> bool {
    &&& q.queue.no_duplicates()
    &&& q.seen.no_duplicates()
    &&& forall|k: int| 0 <= k < q.queue.len() ==> q.seen.contains(#[trigger] q.queue[k])
    &&& forall|k: int| 0 <= k < q.seen.len() ==> (#[trigger] q.seen[k]) < s.len()
    &&& forall|i: usize| i < s.len() && #[trigger] is_main(s, i as int) ==> q.seen.contains(i)
    &&& forall|x: usize|
        #[trigger] q.seen.contains(x) && !q.queue.contains(x) ==> !is_dev(s[x as int], roots)
    &&& forall|x: usize, y: usize|
        q.seen.contains(x) && !q.queue.contains(x) && #[trigger] refers(s, x as int, y)
            ==> q.seen.contains(y)
}

/// Whether everything seen is found to be reachable.
spec fn justified(s: Seq<Function>, q: Search) -> bool {
    forall|x: usize| #[trigger] q.seen.contains(x) ==> reachable(s, x)
}

proof fn lemma_resolved(s: Seq<Function>, module: Seq<Seq<char>>, step: Step)
    requires
        s.len() <= usize::MAX,
    ensures
        step_ref(s, module, step) matches Some(i) ==> i < s.len(),
{
    match step {
        Step::Expr(Expr::Var(name, _)) => crate::resolve::resolved_functions_exist(
            s,
            seq![name@],
            module,
        ),
        Step::Expr(Expr::Path { segments, .. }) => crate::resolve::resolved_functions_exist(
            s,
            texts(segments@),
            module,
        ),
        _ => {},
    }
}

/// What following a walk keeps and adds.
proof fn lemma_followed(s: Seq<Function>, module: Seq<Seq<char>>, q: Search, w: Seq<Step>)
    requires
        s.len() <= usize::MAX,
        q.queue.no_duplicates(),
        q.seen.no_duplicates(),
        forall|k: int| 0 <= k < q.queue.len() ==> q.seen.contains(#[trigger] q.queue[k]),
        forall|k: int| 0 <= k < q.seen.len() ==> (#[trigger] q.seen[k]) < s.len(),
    ensures
        ({
            let r = followed(s, module, q, w);
            &&& r.queue.no_duplicates()
            &&& r.seen.no_duplicates()
            &&& forall|k: int| 0 <= k < r.queue.len() ==> r.seen.contains(#[trigger] r.queue[k])
            &&& forall|k: int| 0 <= k < r.seen.len() ==> (#[trigger] r.seen[k]) < s.len()
            &&& forall|x: usize| #[trigger] q.seen.contains(x) ==> r.seen.contains(x)
            &&& forall|x: usize|
                #[trigger] r.seen.contains(x) && !r.queue.contains(x) ==> q.seen.contains(x)
                    && !q.queue.contains(x)
            &&& forall|m: int|
                0 <= m < w.len() ==> (step_ref(s, module, #[trigger] w[m]) matches Some(i)
                    ==> r.seen.contains(i))
            &&& forall|x: usize|
                #[trigger] r.seen.contains(x) ==> q.seen.contains(x) || exists|m: int|
                    0 <= m < w.len() && step_ref(s, module, #[trigger] w[m]) == Some(x)
            &&& r.seen.len() - r.queue.len() == q.seen.len() - q.queue.len()
        }),
    decreases w.len(),
{
    let r = followed(s, module, q, w);
    if w.len() > 0 {
        let front = w.drop_last();
        lemma_followed(s, module, q, front);
        lemma_resolved(s, module, w.last());
        let before = followed(s, module, q, front);
        match step_ref(s, module, w.last()) {
            Some(i) => {
                if !before.seen.contains(i) {
                    lemma_pushed(before.queue, i);
                    lemma_pushed(before.seen, i);
                    assert(!before.queue.contains(i)) by {
                        if before.queue.contains(i) {
                            let k = choose|k: int|
                                0 <= k < before.queue.len() && before.queue[k] == i;
                            assert(before.seen.contains(before.queue[k]));
                        }
                    }
                }
            },
            None => {},
        }
        assert forall|m: int| 0 <= m < w.len() implies (step_ref(s, module, #[trigger] w[m])
            matches Some(i) ==> r.seen.contains(i)) by {
            if m < front.len() {
                assert(w[m] == front[m]);
            }
        }
        assert forall|x: usize| #[trigger] r.seen.contains(x) implies q.seen.contains(x)
            || exists|m: int|
            0 <= m < w.len() && step_ref(s, module, #[trigger] w[m]) == Some(x) by {
            if before.seen.contains(x) {
                if !q.seen.contains(x) {
                    let m = choose|m: int|
                        0 <= m < front.len() && step_ref(s, module, #[trigger] front[m])
                            == Some(x);
                    assert(w[m] == front[m]);
                }
            } else {
                assert(w[w.len() - 1] == w.last());
            }
        }
    }
}

/// What a list with one more element holds.
proof fn lemma_pushed(s: Seq<usize>, i: usize)
    ensures
        s.push(i).contains(i),
        forall|x: usize| #[trigger] s.push(i).contains(x) <==> s.contains(x) || x == i,
{
    let t = s.push(i);
    assert(t[s.len() as int] == i);
    assert forall|x: usize| s.contains(x) implies #[trigger] t.contains(x) by {
        let k = choose|k: int| 0 <= k < s.len() && s[k] == x;
        assert(t[k] == x);
    }
}

/// What a list without its last element holds.
proof fn lemma_popped(s: Seq<usize>)
    requires
        s.len() > 0,
        s.no_duplicates(),
    ensures
        !s.drop_last().contains(s.last()),
        s.drop_last().no_duplicates(),
        forall|x: usize| #[trigger] s.drop_last().contains(x) <==> s.contains(x) && x != s.last(),
{
    let t = s.drop_last();
    assert forall|x: usize| s.contains(x) && x != s.last() implies #[trigger] t.contains(x) by {
        let k = choose|k: int| 0 <= k < s.len() && s[k] == x;
        assert(t[k] == x);
    }
    assert forall|x: usize| #[trigger] t.contains(x) implies s.contains(x) && x != s.last() by {
        let k = choose|k: int| 0 <= k < t.len() && t[k] == x;
        assert(s[k] == x);
    }
}

/// A search that looks at one more function is still under way.
proof fn lemma_next(s: Seq<Function>, roots: Seq<Seq<char>>, q: Search)
    requires
        s.len() <= usize::MAX,
        under_way(s, roots, q),
        q.queue.len() > 0,
        !is_dev(s[q.queue.last() as int], roots),
    ensures
        under_way(s, roots, next_search(s, q)),
        next_search(s, q).seen.len() - next_search(s, q).queue.len() == q.seen.len()
            - q.queue.len() + 1,
        justified(s, q) ==> justified(s, next_search(s, q)),
{
    let i = q.queue.last();
    let f = s[i as int];
    let module = texts(f.module_segments@);
    let w = block_steps(Seq::empty(), f.body);
    let base = Search { queue: q.queue.drop_last(), seen: q.seen };
    lemma_popped(q.queue);
    assert(q.seen.contains(q.queue[q.queue.len() - 1]));
    assert forall|k: int| 0 <= k < base.queue.len() implies base.seen.contains(
        #[trigger] base.queue[k],
    ) by {
        assert(q.seen.contains(q.queue[k]));
    }
    lemma_followed(s, module, base, w);
    let r = next_search(s, q);
    assert forall|x: usize, y: usize|
        r.seen.contains(x) && !r.queue.contains(x) && #[trigger] refers(
            s,
            x as int,
            y,
        ) implies r.seen.contains(y) by {
        if x == i {
            let m = choose|m: int|
                0 <= m < w.len() && step_ref(s, module, #[trigger] w[m]) == Some(y);
            assert(step_ref(s, module, w[m]) == Some(y));
        } else {
            assert(q.seen.contains(x) && !q.queue.contains(x));
        }
    }
    if justified(s, q) {
        assert forall|x: usize| #[trigger] r.seen.contains(x) implies reachable(s, x) by {
            if !q.seen.contains(x) {
                let m = choose|m: int|
                    0 <= m < w.len() && step_ref(s, module, #[trigger] w[m]) == Some(x);
                assert(refers(s, i as int, x));
                assert(reachable(s, i));
                let n = choose|n: nat| reachable_in(s, i, n);
                assert(q.seen.contains(i));
                lemma_seen(s, q, i);
                assert(reachable_in(s, x, n + 1));
            }
        }
    }
}

proof fn lemma_seen(s: Seq<Function>, q: Search, i: usize)
    requires
        q.seen.contains(i),
        forall|k: int| 0 <= k < q.seen.len() ==> (#[trigger] q.seen[k]) < s.len(),
    ensures
        i < s.len(),
{
    let k = choose|k: int| 0 <= k < q.seen.len() && q.seen[k] == i;
    assert(q.seen[k] < s.len());
}

/// Distinct numbers below `n` are at most `n`.
proof fn lemma_pigeons(s: Seq<usize>, n: nat)
    requires
        s.no_duplicates(),
        forall|k: int| 0 <= k < s.len() ==> (#[trigger] s[k]) < n,
    ensures
        s.len() <= n,
    decreases n,
{
    if n == 0 {
        if s.len() > 0 {
            assert(s[0] < n);
        }
    } else if exists|k: int| 0 <= k < s.len() && #[trigger] s[k] == n - 1 {
        let k = choose|k: int| 0 <= k < s.len() && #[trigger] s[k] == n - 1;
        let t = s.remove(k);
        assert forall|j: int| 0 <= j < t.len() implies (#[trigger] t[j]) < n - 1 by {
            let from = if j < k {
                j
            } else {
                j + 1
            };
            assert(t[j] == s[from]);
            assert(s[from] != s[k]);
        }
        lemma_pigeons(t, (n - 1) as nat);
    } else {
        lemma_pigeons(s, (n - 1) as nat);
    }
}

/// Whether a list holds every reachable function and none of a dev dependency.
spec fn is_clean(s: Seq<Function>, roots: Seq<Seq<char>>, seen: Seq<usize>) -> bool {
    under_way(s, roots, Search { queue: Seq::empty(), seen })
}

proof fn lemma_search(s: Seq<Function>, roots: Seq<Seq<char>>, q: Search, fuel: nat) -> (seen: Seq<
    usize,
>)
    requires
        s.len() <= usize::MAX,
        under_way(s, roots, q),
        fuel + q.seen.len() - q.queue.len() >= s.len(),
        dev_reached(s, roots, q, fuel) is None,
    ensures
        is_clean(s, roots, seen),
    decreases fuel,
{
    if q.queue.len() == 0 {
        assert(q.queue =~= Seq::<usize>::empty());
        q.seen
    } else if fuel == 0 {
        lemma_pigeons(q.seen, s.len());
        q.seen
    } else {
        lemma_next(s, roots, q);
        lemma_search(s, roots, next_search(s, q), (fuel - 1) as nat)
    }
}

proof fn lemma_clean(s: Seq<Function>, roots: Seq<Seq<char>>, seen: Seq<usize>, i: usize, n: nat)
    requires
        is_clean(s, roots, seen),
        i < s.len(),
        reachable_in(s, i, n),
    ensures
        seen.contains(i),
    decreases n,
{
    if n == 0 {
        assert(is_main(s, i as int));
    } else {
        let m = (n - 1) as nat;
        if reachable_in(s, i, m) {
            lemma_clean(s, roots, seen, i, m);
        } else {
            let k = choose|k: usize|
                k < s.len() && reachable_in(s, k, m) && #[trigger] refers(s, k as int, i);
            lemma_clean(s, roots, seen, k, m);
            assert(refers(s, k as int, i));
        }
    }
}

proof fn lemma_mains(s: Seq<Function>, n: nat)
    requires
        n <= s.len(),
        s.len() <= usize::MAX,
    ensures
        mains(s, n).no_duplicates(),
        forall|k: int| 0 <= k < mains(s, n).len() ==> (#[trigger] mains(s, n)[k]) < n,
        forall|i: usize| #[trigger] mains(s, n).contains(i) <==> i < n && is_main(s, i as int),
    decreases n,
{
    if n > 0 {
        let m = (n - 1) as nat;
        lemma_mains(s, m);
        if is_main(s, n - 1) {
            lemma_pushed(mains(s, m), m as usize);
        }
    }
}

proof fn lemma_start(s: Seq<Function>, roots: Seq<Seq<char>>)
    requires
        s.len() <= usize::MAX,
    ensures
        under_way(s, roots, Search { queue: mains(s, s.len()), seen: mains(s, s.len()) }),
        justified(s, Search { queue: mains(s, s.len()), seen: mains(s, s.len()) }),
{
    let start = mains(s, s.len());
    lemma_mains(s, s.len());
    assert forall|x: usize| #[trigger] start.contains(x) implies reachable(s, x) by {
        assert(reachable_in(s, x, 0));
    }
    assert forall|k: int| 0 <= k < start.len() implies start.contains(#[trigger] start[k]) by {}
}

/// A build is rejected wherever the code of a dev dependency is reachable from
/// `main`.
pub proof fn reachable_dev_code_is_rejected(s: Seq<Function>, dev_roots: Seq<Seq<char>>, i: usize)
    requires
        s.len() <= usize::MAX,
        i < s.len(),
        reachable(s, i),
        is_dev(s[i as int], dev_roots),
    ensures
        dev_in_artifact(s, dev_roots) is Some,
{
    let start = mains(s, s.len());
    let q = Search { queue: start, seen: start };
    lemma_start(s, dev_roots);
    if dev_in_artifact(s, dev_roots) is None {
        let seen = lemma_search(s, dev_roots, q, s.len());
        let n = choose|n: nat| reachable_in(s, i, n);
        lemma_clean(s, dev_roots, seen, i, n);
        assert(!Seq::<usize>::empty().contains(i));
        assert(false);
    }
}

proof fn lemma_rejected(s: Seq<Function>, roots: Seq<Seq<char>>, q: Search, fuel: nat)
    requires
        s.len() <= usize::MAX,
        under_way(s, roots, q),
        justified(s, q),
    ensures
        dev_reached(s, roots, q, fuel) matches Some(i) ==> i < s.len() && reachable(s, i)
            && is_dev(s[i as int], roots),
    decreases fuel,
{
    if fuel > 0 && q.queue.len() > 0 {
        let i = q.queue.last();
        assert(q.seen.contains(q.queue[q.queue.len() - 1]));
        lemma_seen(s, q, i);
        if !is_dev(s[i as int], roots) {
            lemma_next(s, roots, q);
            lemma_rejected(s, roots, next_search(s, q), (fuel - 1) as nat);
        }
    }
}

/// A build is rejected only for the code of a dev dependency that is reachable
/// from `main`.
pub proof fn only_reachable_dev_code_is_rejected(s: Seq<Function>, dev_roots: Seq<Seq<char>>)
    requires
        s.len() <= usize::MAX,
    ensures
        dev_in_artifact(s, dev_roots) matches Some(i) ==> i < s.len() && reachable(s, i) && is_dev(
            s[i as int],
            dev_roots,
        ),
{
    let start = mains(s, s.len());
    lemma_start(s, dev_roots);
    lemma_rejected(s, dev_roots, Search { queue: start, seen: start }, s.len());
}

/// The state of a search.
struct Frontier {
    queue: Vec<usize>,
    seen: Vec<usize>,
}

impl Frontier {
    spec fn view(&self) -> Search {
        Search { queue: self.queue@, seen: self.seen@ }
    }

    /// Whether what it holds are indices of functions.
    spec fn within(&self, n: nat) -> bool {
        forall|k: int| 0 <= k < self.queue@.len() ==> (#[trigger] self.queue@[k]) < n
    }
}

fn has_index(s: &Vec<usize>, i: usize) -> (r: bool)
    ensures
        r == s@.contains(i),
{
    let mut k: usize = 0;
    while k < s.len()
        invariant
            k <= s.len(),
            forall|j: int| 0 <= j < k ==> s@[j] != i,
        decreases s.len() - k,
    {
        if s[k] == i {
            return true;
        }
        k += 1;
    }
    false
}

fn find_ref(s: &Vec<Function>, module: &Vec<String>, v: &Visit<'_>) -> (r: Option<usize>)
    ensures
        r == step_ref(s@, texts(module@), v@),
        r matches Some(i) ==> i < s@.len(),
{
    let found = match v {
        Visit::Expr(e) => match e {
            Expr::Var(name, _) => resolve_name(s, name.as_str(), module),
            Expr::Path { segments, .. } => resolve_in(s, segments, module),
            _ => Resolved::Nothing,
        },
        _ => Resolved::Nothing,
    };
    match found {
        Resolved::One(i) => Some(i),
        _ => None,
    }
}

/// Follows what a function refers to.
fn follow(s: &Vec<Function>, q: &mut Frontier, i: usize)
    requires
        i < s@.len(),
        old(q).within(s@.len()),
    ensures
        final(q)@ == followed(
            s@,
            texts(s@[i as int].module_segments@),
            old(q)@,
            block_steps(Seq::empty(), s@[i as int].body),
        ),
        final(q).within(s@.len()),
{
    let f = &s[i];
    let mut all: Vec<Visit<'_>> = Vec::new();
    assert(steps(all@) =~= Seq::<Step>::empty());
    visit_block(&f.body, &mut all);
    let ghost w = steps(all@);
    let ghost module = texts(f.module_segments@);
    let mut k: usize = 0;
    assert(w.len() == all@.len());
    assert(w.take(0).len() == 0);
    while k < all.len()
        invariant
            k <= all.len(),
            w == steps(all@),
            w.len() == all@.len(),
            module == texts(f.module_segments@),
            q@ == followed(s@, module, old(q)@, w.take(k as int)),
            q.within(s@.len()),
        decreases all.len() - k,
    {
        proof {
            assert(w.take(k + 1).drop_last() =~= w.take(k as int));
            assert(w.take(k + 1).last() == all@[k as int]@);
        }
        if let Some(j) = find_ref(s, &f.module_segments, &all[k]) {
            if !has_index(&q.seen, j) {
                q.queue.push(j);
                q.seen.push(j);
            }
        }
        k += 1;
    }
    assert(w.take(w.len() as int) =~= w);
}

fn start_search(s: &Vec<Function>) -> (r: Frontier)
    ensures
        r@ == (Search { queue: mains(s@, s@.len()), seen: mains(s@, s@.len()) }),
        r.within(s@.len()),
{
    let mut q = Frontier { queue: Vec::new(), seen: Vec::new() };
    let mut i: usize = 0;
    assert(q.queue@ =~= mains(s@, 0));
    while i < s.len()
        invariant
            i <= s.len(),
            q.queue@ == mains(s@, i as nat),
            q.seen@ == q.queue@,
            q.within(s@.len()),
        decreases s.len() - i,
    {
        if s[i].module_segments.len() == 0 && same(s[i].name.as_str(), "main") {
            q.queue.push(i);
            q.seen.push(i);
        }
        i += 1;
    }
    q
}

fn dev_error(f: &Function) -> (r: Error)
    requires
        f.module_segments@.len() > 0,
    ensures
        r@ == dev_problem(*f),
{
    let mut message = owned("`");
    let path = join(&f.module_segments, ".");
    message.push_str(path.as_str());
    message.push_str(".");
    message.push_str(f.name.as_str());
    message.push_str("` is provided by dev-dependency import root `");
    message.push_str(f.module_segments[0].as_str());
    message.push_str(
        "` and must not be reachable from build artifacts; call it from a `@test` fn only, or move the dependency to `[dependencies]`",
    );
    Error::new(message)
}

/// Rejects a program whose artifact would reach the code of a dev dependency.
/// With the tests stripped, everything reachable from `main` is artifact code,
/// and none of it may be under one of `dev_roots`. A private helper that only
/// tests call may keep using a dev dependency.
pub fn check_dev_reachability(program: &Program, dev_roots: &Vec<String>) -> (r: Result<(), Error>)
    ensures
        match dev_in_artifact(program.functions@, texts(dev_roots@)) {
            None => r is Ok,
            Some(i) => r matches Err(e) && e@ == dev_problem(program.functions@[i as int]),
        },
{
    assert(texts(dev_roots@).len() == dev_roots@.len());
    if dev_roots.len() == 0 {
        return Ok(());
    }
    let s = &program.functions;
    let ghost roots = texts(dev_roots@);
    let ghost all = dev_in_artifact(s@, roots);
    let mut q = start_search(s);
    let mut fuel: usize = s.len();
    while fuel > 0 && q.queue.len() > 0
        invariant
            all == dev_reached(s@, roots, q@, fuel as nat),
            roots == texts(dev_roots@),
            all == dev_in_artifact(s@, roots),
            *s == program.functions,
            q.within(s@.len()),
        decreases fuel,
    {
        let ghost now = q@;
        if let Some(i) = q.queue.pop() {
            assert(i == now.queue.last());
            assert(now.queue[now.queue.len() - 1] < s@.len());
            let f = &s[i];
            if f.module_segments.len() > 0 && contains_name(
                dev_roots,
                f.module_segments[0].as_str(),
            ) {
                return Err(dev_error(f));
            }
            assert(q@ =~= (Search { queue: now.queue.drop_last(), seen: now.seen }));
            follow(s, &mut q, i);
        }
        fuel -= 1;
    }
    Ok(())
}

/// How the frontend ends: with the first of its errors, if there is one.
pub fn compile_frontend_source(checked: Checked) -> (r: Result<(Program, TypedProgram), Error>)
    ensures
        match r {
            Ok((program, typed)) => {
                &&& checked.errors@.len() == 0
                &&& program == checked.program
                &&& typed == checked.typed
            },
            Err(e) => checked.errors@.len() > 0 && e == checked.errors@[0],
        },
{
    let mut errors = checked.errors;
    if errors.len() == 0 {
        Ok((checked.program, checked.typed))
    } else {
        Err(errors.remove(0))
    }
}

/// How the frontend ends for the command line: with all of its errors in one, if
/// there are any.
pub fn compile_frontend(checked: Checked) -> (r: Result<(Program, TypedProgram), Error>)
    ensures
        match r {
            Ok((program, typed)) => {
                &&& checked.errors@.len() == 0
                &&& program == checked.program
                &&& typed == checked.typed
            },
            Err(e) => checked.errors@.len() > 0 && e@ == plain(
                joined(problem_texts(problems(checked.errors@)), "\n\n"@),
            ),
        },
{
    if checked.errors.len() == 0 {
        Ok((checked.program, checked.typed))
    } else {
        Err(aggregate_errors(&checked.errors))
    }
}

/// What checking a source comes to: the first of its errors, if there is one.
pub open spec fn is_check(checked: Checked, r: Result<(), Error>) -> bool {
    match r {
        Ok(_) => checked.errors@.len() == 0,
        Err(e) => checked.errors@.len() > 0 && e == checked.errors@[0],
    }
}

/// Whether a source type-checks; the first error where it does not.
pub fn check_source(checked: Checked) -> (r: Result<(), Error>)
    ensures
        is_check(checked, r),
{
    match compile_frontend_source(checked) {
        Ok(_) => Ok(()),
        Err(e) => Err(e),
    }
}

/// The lowered form of a program without its tests.
pub open spec fn is_artifact_ir(program: Program, typed: TypedProgram, p: Seq<FnNode>) -> bool {
    exists|s: (Program, TypedProgram)|
        #[trigger] is_stripped(program, typed, s) && p == lowered_program(s.0, s.1)
}

fn lower_stripped(program: Program, typed: TypedProgram) -> (r: IrProgram)
    requires
        typed.functions@.len() <= program.functions@.len(),
    ensures
        is_artifact_ir(program, typed, r@),
{
    let ghost p = program;
    let ghost t = typed;
    let s = strip_tests(program, typed);
    let ir = lower(&s.0, &s.1);
    proof {
        assert(is_stripped(p, t, s) && ir@ == lowered_program(s.0, s.1));
    }
    ir
}

/// What lowering a source to text comes to.
pub open spec fn is_ir(checked: Checked, r: Result<String, Error>) -> bool {
    match r {
        Ok(text) => checked.errors@.len() == 0 && exists|p: Seq<FnNode>|
            #[trigger] is_artifact_ir(checked.program, checked.typed, p) && text@
                == program_text(p),
        Err(e) => checked.errors@.len() > 0 && e == checked.errors@[0],
    }
}

/// Whether a program has no test.
pub open spec fn has_no_test(program: Program) -> bool {
    forall|i: int|
        0 <= i < program.functions@.len() ==> !(#[trigger] program.functions@[i]).is_test
}

/// Whether `text` is that of a program without its tests.
pub open spec fn is_testless_text(checked: Checked, text: Seq<char>) -> bool {
    exists|s: (Program, TypedProgram)|
        #[trigger] is_stripped(checked.program, checked.typed, s) && has_no_test(s.0) && text
            == program_text(lowered_program(s.0, s.1))
}

proof fn lemma_no_test(s: Seq<Function>, n: nat)
    requires
        n <= s.len(),
    ensures
        forall|i: int|
            0 <= i < without_tests(s, n).len() ==> !(#[trigger] without_tests(s, n)[i]).is_test,
    decreases n,
{
    if n > 0 {
        lemma_no_test(s, (n - 1) as nat);
    }
}

/// A source has a text exactly where it checks, with the same error where it does
/// not, and its text is that of a program that holds no test.
pub proof fn sources_that_check_have_a_text(
    checked: Checked,
    c: Result<(), Error>,
    r: Result<String, Error>,
)
    requires
        is_check(checked, c),
        is_ir(checked, r),
    ensures
        r is Ok <==> c is Ok,
        r matches Err(e) ==> c == Err::<(), Error>(e),
        r matches Ok(text) ==> is_testless_text(checked, text@),
{
    if let Ok(text) = r {
        let p = choose|p: Seq<FnNode>|
            #[trigger] is_artifact_ir(checked.program, checked.typed, p) && text@ == program_text(
                p,
            );
        let s = choose|s: (Program, TypedProgram)|
            #[trigger] is_stripped(checked.program, checked.typed, s) && p == lowered_program(
                s.0,
                s.1,
            );
        lemma_no_test(checked.program.functions@, checked.program.functions@.len());
        assert(is_stripped(checked.program, checked.typed, s) && has_no_test(s.0));
    }
}

/// The intermediate representation of a source, as text.
pub fn ir_source(checked: Checked) -> (r: Result<String, Error>)
    requires
        checked.typed.functions@.len() <= checked.program.functions@.len(),
    ensures
        is_ir(checked, r),
{
    match compile_frontend_source(checked) {
        Ok((program, typed)) => {
            let ir = lower_stripped(program, typed);
            Ok(emit_text(&ir))
        },
        Err(e) => Err(e),
    }
}

/// The intermediate representation that a build compiles. Its code must not
/// reach a dev dependency.
pub fn compile_to_ir(checked: Checked, dev_roots: &Vec<String>) -> (r: Result<IrProgram, Error>)
    requires
        checked.typed.functions@.len() <= checked.program.functions@.len(),
    ensures
        if checked.errors@.len() > 0 {
            r matches Err(e) && e@ == plain(
                joined(problem_texts(problems(checked.errors@)), "\n\n"@),
            )
        } else {
            exists|s: (Program, TypedProgram)|
                #[trigger] is_stripped(checked.program, checked.typed, s)
                    && match dev_in_artifact(s.0.functions@, texts(dev_roots@)) {
                    Some(i) => r matches Err(e) && e@ == dev_problem(s.0.functions@[i as int]),
                    None => r matches Ok(ir) && ir@ == lowered_program(s.0, s.1),
                }
        },
{
    let ghost p = checked.program;
    let ghost t = checked.typed;
    match compile_frontend(checked) {
        Ok((program, typed)) => {
            let s = strip_tests(program, typed);
            assert(is_stripped(p, t, s));
            match check_dev_reachability(&s.0, dev_roots) {
                Ok(_) => Ok(lower(&s.0, &s.1)),
                Err(e) => Err(e),
            }
        },
        Err(e) => Err(e),
    }
}

/// What compiling a program with a built-in backend comes to.
pub open spec fn is_build(b: Builtin, p: Seq<FnNode>, mode: EmitMode, r: Result<Artifact, BackendError>) -> bool {
    match b {
        Builtin::Wasm => match wasm_rejection(managed(p), Seq::empty()) {
            Some(message) => r matches Err(e) && e.message@ == message && e.diagnostics@.len()
                == 0,
            None => exists|text: Seq<char>|
                #[trigger] is_module(managed(p), Seq::empty(), text) && is_build_of(
                    mode,
                    text,
                    r,
                ),
        },
        Builtin::Js => match js_rejection(p) {
            Some(message) => r matches Err(e) && e.message@ == message && e.diagnostics@.len()
                == 0,
            None => r matches Ok(artifact) && artifact.kind is JsSource && artifact.bytes@
                == encode_utf8(js_module(p, used_platform(p))),
        },
    }
}

/// Compiles a program with a built-in backend.
pub fn compile_with(b: Builtin, ir: &IrProgram, mode: EmitMode) -> (r: Result<
    Artifact,
    BackendError,
>)
    ensures
        is_build(b, ir@, mode, r),
{
    let mut options = BackendOptions::default();
    options.mode = mode;
    assert(crate::platform::platform_entries(options.platform_registry@) =~= Seq::empty());
    match b {
        Builtin::Wasm => WasmBackend.compile(ir, &options),
        Builtin::Js => JsBackend.compile(ir, &options),
    }
}

/// What a build with the named backend comes to, from the compiled form.
pub open spec fn is_outcome(name: Seq<char>, p: Seq<FnNode>, mode: EmitMode, r: Result<Artifact, Error>) -> bool {
    match registered(canonical_name(name)) {
        None => r matches Err(e) && e@ == unknown_backend(canonical_name(name)),
        Some(b) => exists|c: Result<Artifact, BackendError>| #[trigger] is_build(b, p, mode, c)
            && match c {
            Ok(artifact) => r == Ok::<Artifact, Error>(artifact),
            Err(f) => r matches Err(e) && e@ == plain(
                crate::backend::error_text(f.message@, texts(f.diagnostics@)),
            ),
        },
    }
}

/// Compiles a program with the backend of the given name.
pub fn build(ir: &IrProgram, backend: &str, mode: EmitMode) -> (r: Result<Artifact, Error>)
    ensures
        is_outcome(backend@, ir@, mode, r),
{
    match select_backend(backend) {
        Ok(b) => {
            let c = compile_with(b, ir, mode);
            let ghost made = c;
            assert(is_build(b, ir@, mode, made));
            match c {
                Ok(artifact) => Ok(artifact),
                Err(f) => Err(Error::from_backend(&f)),
            }
        },
        Err(e) => Err(e),
    }
}

/// What compiling a source with the named backend comes to.
pub open spec fn is_compiled(checked: Checked, backend: Seq<char>, mode: EmitMode, r: Result<Artifact, Error>) -> bool {
    if checked.errors@.len() > 0 {
        r matches Err(e) && e == checked.errors@[0]
    } else {
        exists|p: Seq<FnNode>|
            #[trigger] is_artifact_ir(checked.program, checked.typed, p) && is_outcome(
                backend,
                p,
                mode,
                r,
            )
    }
}

/// Whether a backend can be asked for by a name.
pub open spec fn is_backend_name(name: Seq<char>) -> bool {
    name == "wasm-wasi"@ || name == "js-node"@ || name == "wasm"@ || name == "js"@ || name
        == "js-bun"@
}

/// Two names for one backend have the same outcomes.
pub proof fn aliases_have_the_same_outcomes(
    checked: Checked,
    a: Seq<char>,
    b: Seq<char>,
    mode: EmitMode,
    r: Result<Artifact, Error>,
)
    requires
        canonical_name(a) == canonical_name(b),
    ensures
        is_compiled(checked, a, mode, r) == is_compiled(checked, b, mode, r),
{
    if is_compiled(checked, a, mode, r) && checked.errors@.len() == 0 {
        let p = choose|p: Seq<FnNode>|
            #[trigger] is_artifact_ir(checked.program, checked.typed, p) && is_outcome(
                a,
                p,
                mode,
                r,
            );
        assert(is_outcome(b, p, mode, r));
    }
    if is_compiled(checked, b, mode, r) && checked.errors@.len() == 0 {
        let p = choose|p: Seq<FnNode>|
            #[trigger] is_artifact_ir(checked.program, checked.typed, p) && is_outcome(
                b,
                p,
                mode,
                r,
            );
        assert(is_outcome(a, p, mode, r));
    }
}

/// `js` and `js-bun` stand for `js-node`, and `wasm` for `wasm-wasi`.
pub proof fn short_names_are_aliases()
    ensures
        canonical_name("js"@) == canonical_name("js-node"@),
        canonical_name("js-bun"@) == canonical_name("js-node"@),
        canonical_name("wasm"@) == canonical_name("wasm-wasi"@),
{
    reveal_strlit("js");
    reveal_strlit("js-bun");
    reveal_strlit("wasm");
    reveal_strlit("wasm-wasi");
    reveal_strlit("js-node");
    assert("js"@.len() == 2 && "js-bun"@.len() == 6 && "wasm"@.len() == 4);
    assert("wasm-wasi"@.len() == 9 && "js-node"@.len() == 7);
}

/// A source that checks is compiled under the name of a backend, and under any
/// other name, that of a file too, the one outcome is that there is no such
/// backend.
pub proof fn other_names_are_refused(
    checked: Checked,
    name: Seq<char>,
    mode: EmitMode,
    r: Result<Artifact, Error>,
)
    requires
        checked.errors@.len() == 0,
        is_compiled(checked, name, mode, r),
    ensures
        is_backend_name(name) <==> registered(canonical_name(name)) is Some,
        !is_backend_name(name) ==> (r matches Err(e) && e@ == plain(
            "unknown backend `"@ + name + "`; available backends: wasm-wasi, js-node"@,
        )),
{
}

/// Compiles a source with the built-in backend of the given name.
pub fn compile_source(checked: Checked, backend: &str, mode: EmitMode) -> (r: Result<
    Artifact,
    Error,
>)
    requires
        checked.typed.functions@.len() <= checked.program.functions@.len(),
    ensures
        is_compiled(checked, backend@, mode, r),
{
    match compile_frontend_source(checked) {
        Ok((program, typed)) => {
            let ir = lower_stripped(program, typed);
            build(&ir, backend, mode)
        },
        Err(e) => Err(e),
    }
}

} // verus!
