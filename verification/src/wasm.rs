//! The WebAssembly backend.
//!
//! Lowers a program to a WASI module that runs on any WASI preview1 runtime.
//! The module is authored as text and then assembled to a binary, so the
//! compiler needs no external tools.
//!
//! Every function (top level and lambda) is closure-converted to a function
//! that takes an environment pointer as its first parameter, and is placed in a
//! function table. A function value is a pointer to a closure
//! `[table_index: i32][captures...]`. A direct call to a known top-level
//! function uses `call`; calling any other function value loads the table index
//! from the closure and uses `call_indirect`.
//!
//! `_start` calls `main`. If `main` returns `Int`, that value is the process
//! exit code; otherwise the exit code is `0`.

use vstd::prelude::*;
use vstd::utf8::encode_utf8;

use crate::backend::{Artifact, ArtifactKind, Backend, BackendError, BackendOptions, EmitMode, Tier};
use crate::ir::IrProgram;
use crate::platform::platform_entries;
use crate::rc::{insert_rc_ops, managed};
use crate::strings::owned;

use module::{emit_module, is_module, wasm_rejection};
use text::{assemble, assembly};

pub mod code;
pub mod count;
pub mod data;
pub mod host;
pub mod layout;
pub mod machine;
pub mod module;
pub mod opens;
pub mod pieces;
pub mod runtime;
pub mod scalar;
pub mod shapes;
pub mod supply;
pub mod text;

verus! {

/// What is wrong with the encoding of a module, if anything.
pub uninterp spec fn flaw(bytes: Seq<u8>) -> Option<Seq<char>>;

/// `wasmparser::validate`: the display text of the error with which the bytes
/// fail to validate as a module or component, if they do. The result depends on
/// the bytes alone.
#[verifier::external_body]
pub(crate) fn flaw_of(bytes: &Vec<u8>) -> (r: Option<String>)
    ensures
        match r {
            Some(message) => flaw(bytes@) == Some(message@),
            None => flaw(bytes@) is None,
        },
{
    wasmparser::validate(bytes).err().map(|err| err.to_string())
}

/// The artifact of an assembled module: its bytes, unless `flaw` is what is
/// wrong with them.
pub fn binary_artifact(bytes: Vec<u8>, flaw: Option<String>) -> (r: Result<Artifact, BackendError>)
    ensures
        match (r, flaw) {
            (Ok(artifact), None) => artifact.kind is WasmBinary && artifact.bytes@ == bytes@,
            (Err(e), Some(message)) => {
                &&& e.message@ == "internal error: generated wasm failed to validate"@
                &&& e.diagnostics@.len() == 1
                &&& e.diagnostics@[0]@ == message@
            },
            _ => false,
        },
{
    match flaw {
        Some(message) => Err(
            BackendError::with(
                owned("internal error: generated wasm failed to validate"),
                vec![message],
            ),
        ),
        None => Ok(Artifact { kind: ArtifactKind::WasmBinary, bytes }),
    }
}

/// The error for a module text that does not assemble.
pub fn assembly_error(message: String) -> (r: BackendError)
    ensures
        r.message@ == "internal error: generated WAT failed to assemble"@,
        r.diagnostics@.len() == 1,
        r.diagnostics@[0]@ == message@,
{
    BackendError::with(owned("internal error: generated WAT failed to assemble"), vec![message])
}

/// What compiling to a module text in the given mode comes to. Assembling the
/// text type-validates the module, so that a malformed one fails here rather
/// than at run time.
pub open spec fn is_build_of(mode: EmitMode, text: Seq<char>, r: Result<Artifact, BackendError>) -> bool {
    match mode {
        EmitMode::Text => r matches Ok(artifact) && artifact.kind is WasmText && artifact.bytes@
            == encode_utf8(text),
        EmitMode::Default => match assembly(text) {
            Ok(bytes) => match flaw(bytes) {
                None => r matches Ok(artifact) && artifact.kind is WasmBinary && artifact.bytes@
                    == bytes,
                Some(message) => r matches Err(e) && e.message@
                    == "internal error: generated wasm failed to validate"@
                    && e.diagnostics@.len() == 1 && e.diagnostics@[0]@ == message,
            },
            Err(message) => r matches Err(e) && e.message@
                == "internal error: generated WAT failed to assemble"@ && e.diagnostics@.len() == 1
                && e.diagnostics@[0]@ == message,
        },
    }
}

fn build(mode: EmitMode, text: String) -> (r: Result<Artifact, BackendError>)
    ensures
        is_build_of(mode, text@, r),
{
    match mode {
        EmitMode::Text => Ok(Artifact::text(ArtifactKind::WasmText, text)),
        EmitMode::Default => match assemble(text.as_str()) {
            Ok(bytes) => {
                let flaw = flaw_of(&bytes);
                binary_artifact(bytes, flaw)
            },
            Err(message) => Err(assembly_error(message)),
        },
    }
}

/// The WASI WebAssembly backend.
pub struct WasmBackend;

impl Backend for WasmBackend {
    fn name(&self) -> (r: &str)
        ensures
            r@ == "wasm-wasi"@,
    {
        "wasm-wasi"
    }

    fn tier(&self) -> (r: Tier)
        ensures
            r == Tier::Tier1,
    {
        Tier::Tier1
    }

    /// Compiles a program to a module: retain and release are inserted on a
    /// private copy, so that other backends see an untouched program.
    fn compile(&self, ir: &IrProgram, options: &BackendOptions) -> (r: Result<
        Artifact,
        BackendError,
    >)
        ensures
            match wasm_rejection(managed(ir@), platform_entries(options.platform_registry@)) {
                Some(message) => r matches Err(e) && e.message@ == message
                    && e.diagnostics@.len() == 0,
                None => exists|text: Seq<char>|
                    #[trigger] is_module(
                        managed(ir@),
                        platform_entries(options.platform_registry@),
                        text,
                    ) && is_build_of(options.mode, text, r),
            },
    {
        let mut program = ir.copy();
        insert_rc_ops(&mut program);
        match emit_module(&program, &options.platform_registry) {
            Ok(text) => build(options.mode, text),
            Err(e) => Err(e),
        }
    }
}

} // verus!
