//! The WASI 0.2 component-model backend.
//!
//! A core module in the canonical ABI is wrapped into a WebAssembly component.
//! Standard capabilities lower to their WASI 0.2 interfaces. The world of the
//! component imports only the interfaces that the program uses, so that the
//! component's imports are what the program is audited by.

use vstd::prelude::*;
use vstd::utf8::encode_utf8;

use wit_component::{embed_component_metadata, ComponentEncoder, StringEncoding};
use wit_parser::Resolve;

use crate::backend::{Artifact, ArtifactKind, BackendError, BackendOptions, EmitMode, Tier};
use crate::ir::{FnNode, IrProgram};
use crate::ir_walk::{first_occurrences, platform_names, preorder_program, used_platform_fns};
use crate::rc::{insert_rc_ops, managed};
use crate::strings::{begins_with, contains_name, owned, texts};
use crate::wasm::text::{assemble, assembly};

use plain::{is_plain_core, plain_core};

pub mod plain;

verus! {

/// A minimal subset of the WASI 0.2 interfaces that the backend lowers to. Only
/// the functions and types that are used are declared; a real runtime provides
/// the full interfaces, so import matching succeeds.
pub const WASI_DEFS: &'static str = "\
package wasi:io@0.2.0 {
  interface error {
    resource error;
  }
  interface poll {
    resource pollable {
      block: func();
    }
  }
  interface streams {
    use error.{error};
    use poll.{pollable};
    variant stream-error {
      last-operation-failed(error),
      closed,
    }
    resource input-stream {
      blocking-read: func(len: u64) -> result<list<u8>, stream-error>;
    }
    resource output-stream {
      blocking-write-and-flush: func(contents: list<u8>) -> result<_, stream-error>;
    }
  }
}

package wasi:sockets@0.2.0 {
  interface network {
    resource network;
    enum error-code {
      unknown,
      access-denied,
      not-supported,
      invalid-argument,
      out-of-memory,
      timeout,
      concurrency-conflict,
      not-in-progress,
      would-block,
      invalid-state,
      new-socket-limit,
      address-not-bindable,
      address-in-use,
      remote-unreachable,
      connection-refused,
      connection-reset,
      connection-aborted,
      datagram-too-large,
      name-unresolvable,
      temporary-resolver-failure,
      permanent-resolver-failure,
    }
    enum ip-address-family {
      ipv4,
      ipv6,
    }
    type ipv4-address = tuple<u8, u8, u8, u8>;
    type ipv6-address = tuple<u16, u16, u16, u16, u16, u16, u16, u16>;
    record ipv4-socket-address {
      port: u16,
      address: ipv4-address,
    }
    record ipv6-socket-address {
      port: u16,
      flow-info: u32,
      address: ipv6-address,
      scope-id: u32,
    }
    variant ip-socket-address {
      ipv4(ipv4-socket-address),
      ipv6(ipv6-socket-address),
    }
  }
  interface instance-network {
    use network.{network};
    instance-network: func() -> network;
  }
  interface tcp {
    use wasi:io/streams@0.2.0.{input-stream, output-stream};
    use wasi:io/poll@0.2.0.{pollable};
    use network.{network, error-code, ip-socket-address};
    resource tcp-socket {
      start-bind: func(network: borrow<network>, local-address: ip-socket-address) -> result<_, error-code>;
      finish-bind: func() -> result<_, error-code>;
      start-listen: func() -> result<_, error-code>;
      finish-listen: func() -> result<_, error-code>;
      accept: func() -> result<tuple<tcp-socket, input-stream, output-stream>, error-code>;
      subscribe: func() -> pollable;
    }
  }
  interface tcp-create-socket {
    use network.{network, error-code, ip-address-family};
    use tcp.{tcp-socket};
    create-tcp-socket: func(address-family: ip-address-family) -> result<tcp-socket, error-code>;
  }
}

package wasi:random@0.2.0 {
  interface random {
    get-random-bytes: func(len: u64) -> list<u8>;
    get-random-u64: func() -> u64;
  }
}

package wasi:filesystem@0.2.0 {
  interface types {
    use wasi:io/streams@0.2.0.{input-stream, output-stream, error};
    type filesize = u64;
    flags descriptor-flags {
      read,
      write,
    }
    flags path-flags {
      symlink-follow,
    }
    flags open-flags {
      create,
      exclusive,
      truncate,
    }
    enum error-code {
      unknown,
      access-denied,
      not-permitted,
      io,
      no-entry,
    }
    resource descriptor {
      open-at: func(path-flags: path-flags, path: string, open-flags: open-flags, %flags: descriptor-flags) -> result<descriptor, error-code>;
      read-via-stream: func(offset: filesize) -> result<input-stream, error-code>;
      write-via-stream: func(offset: filesize) -> result<output-stream, error-code>;
    }
    filesystem-error-code: func(err: borrow<error>) -> option<error-code>;
  }
  interface preopens {
    use types.{descriptor};
    get-directories: func() -> list<tuple<descriptor, string>>;
  }
}

package wasi:cli@0.2.0 {
  interface run {
    run: func() -> result;
  }
  interface stdout {
    use wasi:io/streams@0.2.0.{output-stream};
    get-stdout: func() -> output-stream;
  }
  interface stderr {
    use wasi:io/streams@0.2.0.{output-stream};
    get-stderr: func() -> output-stream;
  }
}
";

/// The steps from a core module to a component that can fail.
#[derive(Debug, Clone, Copy, PartialEq, Eq, Structural)]
pub enum Stage {
    /// Parsing the interface definitions.
    Resolve,
    /// Selecting the world.
    World,
    /// Embedding the world in the module.
    Embed,
    /// Reading the module.
    Load,
    /// Encoding the component.
    Encode,
}

impl Stage {
    /// What is said of a failure at a stage.
    pub open spec fn text(self) -> Seq<char> {
        match self {
            Stage::Resolve => "WIT resolve failed"@,
            Stage::World => "world selection failed"@,
            Stage::Embed => "metadata embed failed"@,
            Stage::Load => "component module load failed"@,
            Stage::Encode => "component encode failed"@,
        }
    }

    /// What is said of a failure at a stage.
    pub fn message(self) -> (r: &'static str)
        ensures
            r@ == self.text(),
    {
        match self {
            Stage::Resolve => "WIT resolve failed",
            Stage::World => "world selection failed",
            Stage::Embed => "metadata embed failed",
            Stage::Load => "component module load failed",
            Stage::Encode => "component encode failed",
        }
    }
}

/// Why interface definitions, shown as `path` in messages, are refused, if they
/// are.
pub uninterp spec fn wit_error(path: Seq<char>, wit: Seq<char>) -> Option<Seq<char>>;

/// `wit_parser::Resolve::push_str`: parses and resolves interface definitions.
/// Whether it fails, and the display text of its error, depend on the arguments
/// alone. The definitions are those of a world of this backend, of which there
/// are thirty-two. Which definitions the function accepts is not stated.
#[verifier::external_body]
fn check_wit(path: &str, wit: &str) -> (r: Option<String>)
    requires
        is_world(wit@),
    ensures
        match r {
            Some(message) => wit_error(path@, wit@) == Some(message@),
            None => wit_error(path@, wit@) is None,
        },
{
    Resolve::default().push_str(path, wit).err().map(|e| format!("{e:#}"))
}

/// Why no world of interface definitions can be selected by its name, if none
/// can, once the definitions have been resolved as for [`wit_error`].
pub uninterp spec fn world_error(path: Seq<char>, wit: Seq<char>, world: Seq<char>) -> Option<
    Seq<char>,
>;

/// `wit_parser::Resolve::select_world`, on what `push_str` made of the
/// definitions: looks a world up in their package. Whether it fails, and the
/// display text of its error, depend on the definitions and the name alone. Which
/// worlds it finds is not stated.
#[verifier::external_body]
fn check_world(path: &str, wit: &str, world: &str) -> (r: Option<String>)
    requires
        is_world(wit@),
        wit_error(path@, wit@) is None,
    ensures
        match r {
            Some(message) => world_error(path@, wit@, world@) == Some(message@),
            None => world_error(path@, wit@, world@) is None,
        },
{
    let mut resolve = Resolve::default();
    let package = resolve.push_str(path, wit).unwrap();
    resolve.select_world(&[package], Some(world)).err().map(|e| format!("{e:#}"))
}

/// A core module with a world of some interface definitions embedded, or the
/// message of the error, once the definitions have been resolved as for
/// [`wit_error`] and the world selected as for [`world_error`].
pub uninterp spec fn embedded(core: Seq<u8>, path: Seq<char>, wit: Seq<char>, world: Seq<char>) -> Result<
    Seq<u8>,
    Seq<char>,
>;

/// `wit_component::embed_component_metadata`, on the world that `push_str` and
/// `select_world` made of the definitions: the description of the world is
/// appended to the bytes of a module as a custom section, for strings in UTF-8.
/// The bytes before it do not matter to the description. The result, and the
/// display text of an error, depend on the arguments alone. What the section
/// holds is not stated.
#[verifier::external_body]
fn embed(core: Vec<u8>, path: &str, wit: &str, world: &str) -> (r: Result<Vec<u8>, String>)
    requires
        is_world(wit@),
        wit_error(path@, wit@) is None,
        world_error(path@, wit@, world@) is None,
    ensures
        match r {
            Ok(bytes) => embedded(core@, path@, wit@, world@) == Ok::<Seq<u8>, Seq<char>>(
                bytes@,
            ) && core@.is_prefix_of(bytes@),
            Err(message) => embedded(core@, path@, wit@, world@) == Err::<Seq<u8>, Seq<char>>(
                message@,
            ),
        },
{
    let mut bytes = core;
    let mut resolve = Resolve::default();
    let package = resolve.push_str(path, wit).unwrap();
    let id = resolve.select_world(&[package], Some(world)).unwrap();
    embed_component_metadata(&mut bytes, &resolve, id, StringEncoding::UTF8, false)
        .map_err(|e| format!("{e:#}"))?;
    Ok(bytes)
}

/// Whether bytes are a plain core module with a world of this backend embedded,
/// and no other.
pub open spec fn is_described(module: Seq<u8>) -> bool {
    exists|core: Seq<u8>, w: WorldUse|
        is_plain_core(core) && #[trigger] embedded(
            core,
            wit_path(),
            definitions(w),
            world_name(),
        ) == Ok::<Seq<u8>, Seq<char>>(module)
}

/// Why the bytes of a core module cannot be wrapped into a component, if they
/// cannot be read.
pub uninterp spec fn module_error(core: Seq<u8>) -> Option<Seq<char>>;

/// `wit_component::ComponentEncoder::module`: reads the bytes of a core module
/// and the description of its world, which is the only one: the function takes
/// apart every section called `component-type`, and not every section can be.
/// Whether it fails, and the display text of its error, depend on the bytes
/// alone. Which modules it accepts is not stated.
#[verifier::external_body]
fn check_module(core: &Vec<u8>) -> (r: Option<String>)
    requires
        is_described(core@),
    ensures
        match r {
            Some(message) => module_error(core@) == Some(message@),
            None => module_error(core@) is None,
        },
{
    ComponentEncoder::default().module(core).err().map(|e| format!("{e:#}"))
}

/// The component of a core module that holds the description of its world, or
/// the message of the error, once the module has been read as for
/// [`module_error`].
pub uninterp spec fn encoded(core: Seq<u8>) -> Result<Seq<u8>, Seq<char>>;

/// `wit_component::ComponentEncoder::encode`, with the default settings, on what
/// `module` made of the bytes: wraps a core module into a component. The module
/// imports nothing but functions of WASI interfaces, under their plain names:
/// an import of the module that is being built, which only an adapter can have,
/// has no instance to come from. Nor does it export anything that an adapter, a
/// linked library or a task of another convention is told by. The result, and the
/// display text of an error, depend on the bytes of the module alone. What the
/// component holds is not stated.
#[verifier::external_body]
fn encode(core: &Vec<u8>) -> (r: Result<Vec<u8>, String>)
    requires
        is_described(core@),
        module_error(core@) is None,
    ensures
        match r {
            Ok(bytes) => encoded(core@) == Ok::<Seq<u8>, Seq<char>>(bytes@),
            Err(message) => encoded(core@) == Err::<Seq<u8>, Seq<char>>(message@),
        },
{
    let mut encoder = ComponentEncoder::default();
    let loaded = encoder.module(core).unwrap();
    loaded.encode().map_err(|e| format!("{e:#}"))
}

/// Whether one of some names begins with `prefix`.
pub open spec fn any_begins(names: Seq<Seq<char>>, prefix: Seq<char>) -> bool {
    exists|i: int| 0 <= i < names.len() && prefix.is_prefix_of(#[trigger] names[i])
}

fn one_begins(names: &Vec<String>, prefix: &str) -> (r: bool)
    ensures
        r == any_begins(texts(names@), prefix@),
{
    let ghost all = texts(names@);
    let mut i: usize = 0;
    while i < names.len()
        invariant
            i <= names.len(),
            all == texts(names@),
            forall|k: int| 0 <= k < i ==> !prefix@.is_prefix_of(#[trigger] all[k]),
        decreases names.len() - i,
    {
        assert(all[i as int] == names@[i as int]@);
        if begins_with(names[i].as_str(), prefix) {
            assert(prefix@.is_prefix_of(all[i as int]));
            return true;
        }
        i += 1;
    }
    false
}

/// What a program uses of WASI.
#[derive(Debug, Clone, Copy, PartialEq, Eq, Structural)]
pub struct WorldUse {
    pub stdout: bool,
    pub stderr: bool,
    pub sockets: bool,
    pub random: bool,
    pub files: bool,
}

/// The import lines of a world.
pub open spec fn world_imports(w: WorldUse) -> Seq<char> {
    (if w.stdout {
        "  import wasi:cli/stdout@0.2.0;\n"@
    } else {
        ""@
    }) + (if w.stderr {
        "  import wasi:cli/stderr@0.2.0;\n"@
    } else {
        ""@
    }) + (if w.sockets {
        "  import wasi:sockets/instance-network@0.2.0;\n  import wasi:sockets/tcp-create-socket@0.2.0;\n  import wasi:sockets/tcp@0.2.0;\n  import wasi:io/poll@0.2.0;\n"@
    } else {
        ""@
    }) + (if w.random {
        "  import wasi:random/random@0.2.0;\n"@
    } else {
        ""@
    }) + (if w.files {
        "  import wasi:filesystem/types@0.2.0;\n  import wasi:filesystem/preopens@0.2.0;\n"@
    } else {
        ""@
    })
}

/// The definitions of a world: it exports `wasi:cli/run` and imports only the
/// interfaces that are used.
pub open spec fn definitions(w: WorldUse) -> Seq<char> {
    "package emela:app@0.2.0;\n\nworld command {\n"@ + world_imports(w)
        + "  export wasi:cli/run@0.2.0;\n}\n\n"@ + WASI_DEFS@
}

/// Whether definitions are those of a world of this backend.
pub open spec fn is_world(wit: Seq<char>) -> bool {
    exists|w: WorldUse| wit == #[trigger] definitions(w)
}

/// What platform functions use of WASI.
pub open spec fn use_of(used: Seq<Seq<char>>) -> WorldUse {
    WorldUse {
        stdout: used.contains("io.write_stdout"@),
        stderr: used.contains("io.write_stderr"@),
        sockets: any_begins(used, "socket."@),
        random: any_begins(used, "random."@),
        files: any_begins(used, "fs."@),
    }
}

/// What a program uses of WASI.
pub open spec fn program_use(p: Seq<FnNode>) -> WorldUse {
    use_of(first_occurrences(platform_names(preorder_program(p))))
}

/// The definitions of a program's world.
pub open spec fn world_text(p: Seq<FnNode>) -> Seq<char> {
    definitions(program_use(p))
}

fn push_if(out: &mut String, wanted: bool, text: &str)
    ensures
        final(out)@ == old(out)@ + (if wanted {
            text@
        } else {
            ""@
        }),
{
    if wanted {
        out.push_str(text);
    } else {
        proof {
            reveal_strlit("");
            assert(out@ + ""@ =~= out@);
        }
    }
}

/// What a program uses of WASI.
pub fn world_use(ir: &IrProgram) -> (r: WorldUse)
    ensures
        r == program_use(ir@),
{
    let used = used_platform_fns(ir);
    WorldUse {
        stdout: contains_name(&used, "io.write_stdout"),
        stderr: contains_name(&used, "io.write_stderr"),
        sockets: one_begins(&used, "socket."),
        random: one_begins(&used, "random."),
        files: one_begins(&used, "fs."),
    }
}

/// Builds the definitions of a world.
pub fn world_definitions(w: WorldUse) -> (r: String)
    ensures
        r@ == definitions(w),
{
    let mut imports = String::new();
    push_if(&mut imports, w.stdout, "  import wasi:cli/stdout@0.2.0;\n");
    push_if(&mut imports, w.stderr, "  import wasi:cli/stderr@0.2.0;\n");
    push_if(
        &mut imports,
        w.sockets,
        "  import wasi:sockets/instance-network@0.2.0;\n  import wasi:sockets/tcp-create-socket@0.2.0;\n  import wasi:sockets/tcp@0.2.0;\n  import wasi:io/poll@0.2.0;\n",
    );
    push_if(&mut imports, w.random, "  import wasi:random/random@0.2.0;\n");
    push_if(
        &mut imports,
        w.files,
        "  import wasi:filesystem/types@0.2.0;\n  import wasi:filesystem/preopens@0.2.0;\n",
    );
    assert(imports@ =~= world_imports(w));
    let mut out = owned("package emela:app@0.2.0;\n\nworld command {\n");
    out.push_str(imports.as_str());
    out.push_str("  export wasi:cli/run@0.2.0;\n}\n\n");
    out.push_str(WASI_DEFS);
    out
}

/// Builds the definitions of a program's world.
pub fn wit_world(ir: &IrProgram) -> (r: String)
    ensures
        r@ == world_text(ir@),
{
    world_definitions(world_use(ir))
}

/// What a failure on the way to a component says.
pub open spec fn is_component_error(e: BackendError, stage: Stage, message: Seq<char>) -> bool {
    &&& e.message@ == "internal error: "@ + stage.text()
    &&& e.diagnostics@.len() == 1
    &&& e.diagnostics@[0]@ == message
}

/// The error for a stage that failed.
pub fn component_error(stage: Stage, message: String) -> (r: BackendError)
    ensures
        is_component_error(r, stage, message@),
{
    let mut text = owned("internal error: ");
    text.push_str(stage.message());
    BackendError::with(text, vec![message])
}

/// What the definitions of a component are called in messages.
pub open spec fn wit_path() -> Seq<char> {
    "emela.wit"@
}

/// What the world of a component is called.
pub open spec fn world_name() -> Seq<char> {
    "command"@
}

/// The stage that fails before the world is embedded, and its message. A core
/// module that is not plain is not read any further.
pub open spec fn world_failure(core: Seq<u8>, w: WorldUse) -> Option<(Stage, Seq<char>)> {
    match wit_error(wit_path(), definitions(w)) {
        Some(message) => Some((Stage::Resolve, message)),
        None => match world_error(wit_path(), definitions(w), world_name()) {
            Some(message) => Some((Stage::World, message)),
            None => if is_plain_core(core) {
                None
            } else {
                Some((Stage::Load, "the core module is not a plain one"@))
            },
        },
    }
}

/// What becomes of a core module that holds the description of its world: the
/// component, or the stage that failed and its message.
pub open spec fn wrapped(module: Seq<u8>) -> Result<Seq<u8>, (Stage, Seq<char>)> {
    match module_error(module) {
        Some(message) => Err((Stage::Load, message)),
        None => match encoded(module) {
            Ok(bytes) => Ok(bytes),
            Err(message) => Err((Stage::Encode, message)),
        },
    }
}

/// What becomes of a core module: the component, or the first stage that failed
/// and its message.
pub open spec fn component(core: Seq<u8>, w: WorldUse) -> Result<Seq<u8>, (Stage, Seq<char>)> {
    match world_failure(core, w) {
        Some(failure) => Err(failure),
        None => match embedded(core, wit_path(), definitions(w), world_name()) {
            Ok(module) => wrapped(module),
            Err(message) => Err((Stage::Embed, message)),
        },
    }
}

/// What wrapping a core module into a component comes to.
pub open spec fn is_component_of(core: Seq<u8>, w: WorldUse, r: Result<Vec<u8>, BackendError>) -> bool {
    match component(core, w) {
        Ok(bytes) => r matches Ok(b) && b@ == bytes,
        Err((stage, message)) => r matches Err(e) && is_component_error(e, stage, message),
    }
}

/// Embeds the world in a core module and encodes the component.
pub fn encode_component(core: Vec<u8>, w: WorldUse) -> (r: Result<Vec<u8>, BackendError>)
    ensures
        is_component_of(core@, w, r),
{
    let wit = world_definitions(w);
    assert(is_world(wit@));
    if let Some(message) = check_wit("emela.wit", wit.as_str()) {
        return Err(component_error(Stage::Resolve, message));
    }
    if let Some(message) = check_world("emela.wit", wit.as_str(), "command") {
        return Err(component_error(Stage::World, message));
    }
    if !plain_core(&core) {
        return Err(component_error(Stage::Load, owned("the core module is not a plain one")));
    }
    let module = match embed(core, "emela.wit", wit.as_str(), "command") {
        Ok(module) => module,
        Err(message) => {
            return Err(component_error(Stage::Embed, message));
        },
    };
    assert(is_described(module@));
    if let Some(message) = check_module(&module) {
        return Err(component_error(Stage::Load, message));
    }
    match encode(&module) {
        Ok(bytes) => Ok(bytes),
        Err(message) => Err(component_error(Stage::Encode, message)),
    }
}

/// What compiling a program with the given text of its core module comes to. The
/// component is binary; its text form is the text of the core module.
pub open spec fn is_wasip2_build(p: Seq<FnNode>, mode: EmitMode, core: Seq<char>, r: Result<
    Artifact,
    BackendError,
>) -> bool {
    match mode {
        EmitMode::Text => r matches Ok(artifact) && artifact.kind is WasmText && artifact.bytes@
            == encode_utf8(core),
        EmitMode::Default => match assembly(core) {
            Err(message) => r matches Err(e) && e.message@
                == "internal error: generated core WAT failed to assemble"@
                && e.diagnostics@.len() == 1 && e.diagnostics@[0]@ == message,
            Ok(bytes) => match r {
                Ok(artifact) => artifact.kind is WasmComponent && is_component_of(
                    bytes,
                    program_use(managed(p)),
                    Ok(artifact.bytes),
                ),
                Err(e) => is_component_of(bytes, program_use(managed(p)), Err(e)),
            },
        },
    }
}

/// The backend that emits a WASI 0.2 command component.
pub struct Wasip2Backend;

impl Wasip2Backend {
    /// The name of the backend.
    pub fn name(&self) -> (r: &str)
        ensures
            r@ == "wasm-wasip2"@,
    {
        "wasm-wasip2"
    }

    /// The support level of the backend.
    pub fn tier(&self) -> (r: Tier)
        ensures
            r == Tier::Tier1,
    {
        Tier::Tier1
    }

    /// Compiles a program whose core module in the canonical ABI is `core`, or
    /// could not be emitted.
    pub fn compile(&self, ir: &IrProgram, core: Result<String, BackendError>, options: &BackendOptions) -> (r:
        Result<Artifact, BackendError>)
        ensures
            match core {
                Ok(text) => is_wasip2_build(ir@, options.mode, text@, r),
                Err(e) => r == Err::<Artifact, BackendError>(e),
            },
    {
        let text = match core {
            Ok(text) => text,
            Err(e) => {
                return Err(e);
            },
        };
        match options.mode {
            EmitMode::Text => Ok(Artifact::text(ArtifactKind::WasmText, text)),
            EmitMode::Default => match assemble(text.as_str()) {
                Err(message) => Err(
                    BackendError::with(
                        owned("internal error: generated core WAT failed to assemble"),
                        vec![message],
                    ),
                ),
                Ok(bytes) => {
                    let mut program = ir.copy();
                    insert_rc_ops(&mut program);
                    match encode_component(bytes, world_use(&program)) {
                        Ok(bytes) => Ok(Artifact { kind: ArtifactKind::WasmComponent, bytes }),
                        Err(e) => Err(e),
                    }
                },
            },
        }
    }
}

} // verus!
