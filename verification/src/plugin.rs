//! The external-process backend protocol.
//!
//! A backend can live in another process (or another language). The compiler
//! serializes a [`PluginRequest`] (containing the IR) to the process's stdin as
//! JSON and reads a [`PluginResponse`] from its stdout. [`BackendDescriptor`]
//! is the parsed form of a `backend.json` descriptor; a descriptor with a
//! `command` becomes an [`ExternalBackend`].

use vstd::prelude::*;

use crate::backend::{Artifact, ArtifactKind, BackendError, BackendOptions, EmitMode, Tier};
use crate::ir::{opt_text, IrProgram};
use crate::strings::texts;

verus! {

/// A backend descriptor, as declared in a `backend.json` file.
#[derive(Debug)]
pub struct BackendDescriptor {
    pub name: String,
    pub backend: String,
    pub abi_version: u32,
    /// In-process backends name their implementation here instead of a command.
    pub builtin: Option<String>,
    /// External backends are invoked as this command (argv).
    pub command: Option<Vec<String>>,
    pub runtime: Option<String>,
    pub target: Option<String>,
    pub tier: Option<Tier>,
    pub capabilities: Vec<String>,
    pub externs: Vec<ExternDescriptor>,
}

/// A platform function a backend provides.
#[derive(Debug)]
pub struct ExternDescriptor {
    pub path: Vec<String>,
    pub name: String,
    pub params: Vec<String>,
    pub ret: Option<String>,
    pub effectful: bool,
    pub capabilities: Vec<String>,
    /// The bindings object, as JSON text.
    pub bindings: String,
}

/// The request sent to an external backend process on stdin.
#[derive(Debug)]
pub struct PluginRequest {
    pub ir: IrProgram,
    pub target: Option<String>,
    pub runtime: Option<String>,
    pub mode: EmitMode,
}

/// The response an external backend writes to stdout.
#[derive(Debug)]
pub enum PluginResponse {
    Built { kind: ArtifactKind, bytes: Vec<u8> },
    Error { diagnostics: Vec<String> },
}

/// A backend that runs in another process, speaking the JSON IR protocol.
#[derive(Debug)]
pub struct ExternalBackend {
    pub name: String,
    pub tier: Tier,
    pub command: Vec<String>,
    pub target: Option<String>,
    pub runtime: Option<String>,
}

/// Why a descriptor names no external backend.
pub open spec fn descriptor_error(d: BackendDescriptor) -> Option<Seq<char>> {
    match d.command {
        None => Some(
            "backend `"@ + d.name@
                + "` has no `command`; only external (command) backends can be loaded from a path"@,
        ),
        Some(command) => if command@.len() == 0 {
            Some("backend `"@ + d.name@ + "` has an empty `command`"@)
        } else {
            None
        },
    }
}

/// The external backend a descriptor declares.
pub fn external_backend(descriptor: BackendDescriptor) -> (r: Result<ExternalBackend, String>)
    ensures
        match r {
            Err(message) => descriptor_error(descriptor) == Some(message@),
            Ok(b) => {
                &&& descriptor_error(descriptor) is None
                &&& b.name@ == descriptor.name@
                &&& b.tier == match descriptor.tier {
                    Some(tier) => tier,
                    None => Tier::Tier3,
                }
                &&& descriptor.command == Some(b.command)
                &&& b.target == descriptor.target
                &&& b.runtime == descriptor.runtime
                &&& b.command@.len() > 0
            },
        },
{
    match descriptor.command {
        None => {
            let mut message = String::new();
            message.push_str("backend `");
            message.push_str(descriptor.name.as_str());
            message.push_str(
                "` has no `command`; only external (command) backends can be loaded from a path",
            );
            assert(message@ =~= descriptor_error(descriptor)->0);
            Err(message)
        },
        Some(command) => {
            if command.len() == 0 {
                let mut message = String::new();
                message.push_str("backend `");
                message.push_str(descriptor.name.as_str());
                message.push_str("` has an empty `command`");
                assert(message@ =~= descriptor_error(descriptor)->0);
                return Err(message);
            }
            let tier = match descriptor.tier {
                Some(tier) => tier,
                None => Tier::Tier3,
            };
            Ok(
                ExternalBackend {
                    name: descriptor.name,
                    tier,
                    command,
                    target: descriptor.target,
                    runtime: descriptor.runtime,
                },
            )
        },
    }
}

/// The first of two optional texts that is there.
pub open spec fn first_text(a: Option<String>, b: Option<String>) -> Option<Seq<char>> {
    match a {
        Some(a) => Some(a@),
        None => opt_text(b),
    }
}

fn first_of(a: &Option<String>, b: &Option<String>) -> (r: Option<String>)
    ensures
        opt_text(r) == first_text(*a, *b),
{
    match a {
        Some(a) => Some(a.clone()),
        None => match b {
            Some(b) => Some(b.clone()),
            None => None,
        },
    }
}

/// The outcome of running an external backend's process.
#[derive(Debug)]
pub enum ProcessOutcome {
    /// The process could not be started; the reason.
    NotStarted(String),
    /// Its stdin could not be had.
    NoStdin,
    /// The request could not be sent; the reason.
    NotSent(String),
    /// It did not complete; the reason.
    NotCompleted(String),
    /// It exited with a failure status, named here, and this on stderr.
    Failed { status: String, stderr: String },
    /// It exited well but wrote no response; the reason, and stderr.
    Invalid { reason: String, stderr: String },
    /// It answered.
    Answered(PluginResponse),
}

/// The message and the diagnostics of a process outcome that gives no artifact.
pub open spec fn outcome_error(b: ExternalBackend, outcome: ProcessOutcome) -> (
    Seq<char>,
    Seq<Seq<char>>,
) {
    match outcome {
        ProcessOutcome::NotStarted(reason) => (
            "failed to start backend `"@ + b.name@ + "` ("@ + b.command@[0]@ + "): "@ + reason@,
            Seq::empty(),
        ),
        ProcessOutcome::NoStdin => (
            "backend `"@ + b.name@ + "` stdin was not available for writing"@,
            Seq::empty(),
        ),
        ProcessOutcome::NotSent(reason) => (
            "failed to send IR to backend `"@ + b.name@ + "`: "@ + reason@,
            Seq::empty(),
        ),
        ProcessOutcome::NotCompleted(reason) => (
            "backend `"@ + b.name@ + "` did not complete: "@ + reason@,
            Seq::empty(),
        ),
        ProcessOutcome::Failed { status, stderr } => (
            "backend `"@ + b.name@ + "` exited with "@ + status@,
            seq![stderr@],
        ),
        ProcessOutcome::Invalid { reason, stderr } => (
            "backend `"@ + b.name@ + "` returned invalid JSON: "@ + reason@,
            seq![stderr@],
        ),
        ProcessOutcome::Answered(response) => (
            "backend `"@ + b.name@ + "` reported errors"@,
            match response {
                PluginResponse::Error { diagnostics } => texts(diagnostics@),
                _ => Seq::empty(),
            },
        ),
    }
}

fn sentence(a: &str, b: &str, c: &str, d: &str) -> (r: String)
    ensures
        r@ == a@ + b@ + c@ + d@,
{
    let mut out = String::new();
    out.push_str(a);
    out.push_str(b);
    out.push_str(c);
    out.push_str(d);
    assert(out@ =~= a@ + b@ + c@ + d@);
    out
}

impl ExternalBackend {
    /// The request that asks the process to compile `ir`: the options' target
    /// and runtime take precedence over the descriptor's.
    pub fn request(&self, ir: &IrProgram, options: &BackendOptions) -> (r: PluginRequest)
        ensures
            r.ir@ == ir@,
            opt_text(r.target) == first_text(options.target, self.target),
            opt_text(r.runtime) == first_text(options.runtime, self.runtime),
            r.mode == options.mode,
    {
        PluginRequest {
            ir: ir.copy(),
            target: first_of(&options.target, &self.target),
            runtime: first_of(&options.runtime, &self.runtime),
            mode: options.mode,
        }
    }

    /// What a run of the process gives: the artifact it answered with, or an
    /// error that says what went wrong.
    pub fn finish(&self, outcome: ProcessOutcome) -> (r: Result<Artifact, BackendError>)
        requires
            self.command@.len() > 0,
        ensures
            match r {
                Ok(artifact) => outcome matches ProcessOutcome::Answered(
                    PluginResponse::Built { kind, bytes },
                ) && artifact.kind == kind && artifact.bytes == bytes,
                Err(e) => {
                    &&& !(outcome matches ProcessOutcome::Answered(PluginResponse::Built { .. }))
                    &&& e.message@ == outcome_error(*self, outcome).0
                    &&& texts(e.diagnostics@) == outcome_error(*self, outcome).1
                },
            },
    {
        let ghost want = outcome_error(*self, outcome);
        proof {
            reveal_strlit("");
        }
        match outcome {
            ProcessOutcome::Answered(PluginResponse::Built { kind, bytes }) => Ok(
                Artifact { kind, bytes },
            ),
            ProcessOutcome::Answered(PluginResponse::Error { diagnostics }) => {
                let message = sentence("backend `", self.name.as_str(), "` reported errors", "");
                assert(message@ =~= want.0);
                Err(BackendError::with(message, diagnostics))
            },
            ProcessOutcome::NotStarted(reason) => {
                let mut message = sentence(
                    "failed to start backend `",
                    self.name.as_str(),
                    "` (",
                    self.command[0].as_str(),
                );
                message.push_str("): ");
                message.push_str(reason.as_str());
                assert(message@ =~= want.0);
                let e = BackendError::new(message);
                assert(texts(e.diagnostics@) =~= want.1);
                Err(e)
            },
            ProcessOutcome::NoStdin => {
                let message = sentence(
                    "backend `",
                    self.name.as_str(),
                    "` stdin was not available for writing",
                    "",
                );
                assert(message@ =~= want.0);
                let e = BackendError::new(message);
                assert(texts(e.diagnostics@) =~= want.1);
                Err(e)
            },
            ProcessOutcome::NotSent(reason) => {
                let message = sentence(
                    "failed to send IR to backend `",
                    self.name.as_str(),
                    "`: ",
                    reason.as_str(),
                );
                let e = BackendError::new(message);
                assert(texts(e.diagnostics@) =~= want.1);
                Err(e)
            },
            ProcessOutcome::NotCompleted(reason) => {
                let message = sentence(
                    "backend `",
                    self.name.as_str(),
                    "` did not complete: ",
                    reason.as_str(),
                );
                let e = BackendError::new(message);
                assert(texts(e.diagnostics@) =~= want.1);
                Err(e)
            },
            ProcessOutcome::Failed { status, stderr } => {
                let message = sentence(
                    "backend `",
                    self.name.as_str(),
                    "` exited with ",
                    status.as_str(),
                );
                let mut diagnostics: Vec<String> = Vec::new();
                diagnostics.push(stderr);
                assert(texts(diagnostics@) =~= want.1);
                Err(BackendError::with(message, diagnostics))
            },
            ProcessOutcome::Invalid { reason, stderr } => {
                let message = sentence(
                    "backend `",
                    self.name.as_str(),
                    "` returned invalid JSON: ",
                    reason.as_str(),
                );
                let mut diagnostics: Vec<String> = Vec::new();
                diagnostics.push(stderr);
                assert(texts(diagnostics@) =~= want.1);
                Err(BackendError::with(message, diagnostics))
            },
        }
    }
}

/// Whether a `--backend` value names a descriptor file rather than a built-in
/// backend. `is_file` is whether there is a file of that name.
pub fn is_descriptor_path(value: &str, is_file: bool) -> (r: bool)
    ensures
        r == (".json"@.is_suffix_of(value@) || is_file),
{
    let s = crate::strings::chars_of(value);
    let p = crate::strings::chars_of(".json");
    if is_file {
        return true;
    }
    if p.len() > s.len() {
        return false;
    }
    let from: usize = s.len() - p.len();
    let tail = crate::scan::part(&s, from, s.len());
    assert(tail@ =~= value@.skip(value@.len() - ".json"@.len()));
    crate::strings::same(crate::scan::text_of(&tail).as_str(), ".json")
}

} // verus!
