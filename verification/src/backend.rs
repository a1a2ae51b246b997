//! The pluggable code-generation interface.
//!
//! A [`Backend`] turns a program into an [`Artifact`]. Built-in backends
//! implement this trait directly; external-process plugins are wrapped behind
//! it as well (see [`crate::plugin`]).

use vstd::prelude::*;
use vstd::utf8::encode_utf8;

use crate::ir::IrProgram;
use crate::platform::PlatformFn;

verus! {

/// Support level of a backend.
///
/// `Tier1` backends are built and run in CI; `Tier2` are built and smoke
/// tested; `Tier3` are best-effort. The tier is metadata: it does not gate
/// compilation, but the CLI surfaces it.
#[derive(Debug, Clone, Copy, PartialEq, Eq, Structural)]
pub enum Tier {
    Tier1,
    Tier2,
    Tier3,
}

impl Tier {
    /// The label of a tier.
    pub open spec fn label_text(self) -> Seq<char> {
        match self {
            Tier::Tier1 => "Tier 1"@,
            Tier::Tier2 => "Tier 2"@,
            Tier::Tier3 => "Tier 3"@,
        }
    }

    /// The label of the tier.
    pub fn label(self) -> (r: &'static str)
        ensures
            r@ == self.label_text(),
    {
        match self {
            Tier::Tier1 => "Tier 1",
            Tier::Tier2 => "Tier 2",
            Tier::Tier3 => "Tier 3",
        }
    }
}

/// The kind of bytes an [`Artifact`] holds.
#[derive(Debug, PartialEq, Eq)]
pub enum ArtifactKind {
    JsSource,
    WasmBinary,
    WasmText,
    WasmComponent,
    Other(String),
}

impl ArtifactKind {
    /// Whether the bytes are human-readable text (vs. a binary blob).
    pub fn is_text(&self) -> (r: bool)
        ensures
            r == !(self is WasmBinary || self is WasmComponent),
    {
        !matches!(self, ArtifactKind::WasmBinary | ArtifactKind::WasmComponent)
    }
}

/// The output of a backend.
#[derive(Debug)]
pub struct Artifact {
    pub kind: ArtifactKind,
    pub bytes: Vec<u8>,
}

impl Artifact {
    /// An artifact that holds `text` in UTF-8.
    pub fn text(kind: ArtifactKind, text: String) -> (r: Self)
        ensures
            r.kind == kind,
            r.bytes@ == encode_utf8(text@),
    {
        let bytes = vstd::slice::slice_to_vec(text.as_str().as_bytes());
        Artifact { kind, bytes }
    }
}

/// How a backend should emit.
#[derive(Debug, Clone, Copy, PartialEq, Eq, Structural)]
pub enum EmitMode {
    /// The backend's primary artifact (e.g. a wasm binary, JS source).
    Default,
    /// A textual form of the artifact, when one exists (e.g. WAT).
    Text,
}

impl Default for EmitMode {
    fn default() -> (r: EmitMode)
        ensures
            r == EmitMode::Default,
    {
        EmitMode::Default
    }
}

/// Options passed to a backend at compile time.
#[derive(Debug)]
pub struct BackendOptions {
    pub mode: EmitMode,
    pub target: Option<String>,
    pub runtime: Option<String>,
    /// The platform registry (standard and host entries) for capability
    /// manifest generation. Backends use this to map platform function names to
    /// their capabilities.
    pub platform_registry: Vec<PlatformFn>,
}

impl Default for BackendOptions {
    fn default() -> (r: BackendOptions)
        ensures
            r.mode == EmitMode::Default,
            r.target is None,
            r.runtime is None,
            r.platform_registry@.len() == 0,
    {
        BackendOptions {
            mode: EmitMode::Default,
            target: None,
            runtime: None,
            platform_registry: Vec::new(),
        }
    }
}

/// Why a backend produced no artifact.
#[derive(Debug)]
pub struct BackendError {
    pub message: String,
    /// Further lines, e.g. what an external process reported.
    pub diagnostics: Vec<String>,
}

/// The message followed by the diagnostics, each on a line of its own.
pub open spec fn error_text(message: Seq<char>, diagnostics: Seq<Seq<char>>) -> Seq<char>
    decreases diagnostics.len(),
{
    if diagnostics.len() == 0 {
        message
    } else {
        error_text(message, diagnostics.drop_last()) + "\n"@ + diagnostics.last()
    }
}

impl BackendError {
    /// An error with no diagnostics.
    pub fn new(message: String) -> (r: BackendError)
        ensures
            r.message@ == message@,
            r.diagnostics@.len() == 0,
    {
        BackendError { message, diagnostics: Vec::new() }
    }

    /// An error with diagnostics.
    pub fn with(message: String, diagnostics: Vec<String>) -> (r: BackendError)
        ensures
            r.message@ == message@,
            r.diagnostics@ == diagnostics@,
    {
        BackendError { message, diagnostics }
    }

    /// The error as text.
    pub fn to_string(&self) -> (r: String)
        ensures
            r@ == error_text(self.message@, crate::strings::texts(self.diagnostics@)),
    {
        let ghost all = crate::strings::texts(self.diagnostics@);
        let mut out = self.message.clone();
        let mut i: usize = 0;
        assert(all.take(0) =~= Seq::<Seq<char>>::empty());
        while i < self.diagnostics.len()
            invariant
                i <= self.diagnostics.len(),
                all == crate::strings::texts(self.diagnostics@),
                out@ == error_text(self.message@, all.take(i as int)),
            decreases self.diagnostics.len() - i,
        {
            proof {
                assert(all.take(i + 1).drop_last() =~= all.take(i as int));
            }
            out.push_str("\n");
            out.push_str(self.diagnostics[i].as_str());
            i += 1;
        }
        assert(all.take(all.len() as int) =~= all);
        out
    }
}

/// A code-generation target.
pub trait Backend {
    fn name(&self) -> &str;

    fn tier(&self) -> Tier;

    fn compile(&self, ir: &IrProgram, options: &BackendOptions) -> Result<Artifact, BackendError>;
}

} // verus!
