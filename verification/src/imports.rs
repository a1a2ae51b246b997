//! Imports: which module an `import` names, and what it brings in.
//!
//! A module's public functions are what an `import` names, but its type
//! declarations and their impls come along too, since the signatures of the
//! functions refer to them. Each module is brought in once.
//!
//! Finding and reading files is the caller's work: it asks [`locate`] where a
//! module is to be found, and hands over the modules that it has read and parsed.

use vstd::prelude::*;

use crate::ast::{
    EnumDecl, Extern, Function, ImplDecl, Import, Program, RecordDecl, TraitDecl,
};
use crate::error::{located, plain, problems, Error, Problem};
use crate::ir::opt_text;
use crate::source::{Extent, Span};
use crate::strings::{contains_name, copy_names, join, joined, owned, same, texts};
use crate::subst::shorter;

verus! {

/// Adds the name of a package that `--package` gives, which must be new.
pub fn add_package(names: &mut Vec<String>, name: &str) -> (r: Result<(), Error>)
    ensures
        match r {
            Ok(_) => {
                &&& !texts(old(names)@).contains(name@)
                &&& texts(final(names)@) == texts(old(names)@).push(name@)
            },
            Err(e) => {
                &&& texts(old(names)@).contains(name@)
                &&& final(names)@ == old(names)@
                &&& e@ == plain("duplicate package `"@ + name@ + "` in --package arguments"@)
            },
        },
{
    if contains_name(names, name) {
        let mut message = owned("duplicate package `");
        message.push_str(name);
        message.push_str("` in --package arguments");
        return Err(Error::new(message));
    }
    let ghost before = texts(names@);
    names.push(owned(name));
    assert(texts(names@) =~= before.push(name@));
    Ok(())
}

/// Adds the import root of a dependency, which must not be the name of a package.
pub fn add_dependency(names: &mut Vec<String>, name: &str) -> (r: Result<(), Error>)
    ensures
        match r {
            Ok(_) => {
                &&& !texts(old(names)@).contains(name@)
                &&& texts(final(names)@) == texts(old(names)@).push(name@)
            },
            Err(e) => {
                &&& texts(old(names)@).contains(name@)
                &&& final(names)@ == old(names)@
                &&& e@ == plain(
                    "import-root name `"@ + name@
                        + "` from a dependency Pome collides with another package; rename the `--package` or the Pome"@,
                )
            },
        },
{
    if contains_name(names, name) {
        let mut message = owned("import-root name `");
        message.push_str(name);
        message.push_str(
            "` from a dependency Pome collides with another package; rename the `--package` or the Pome",
        );
        return Err(Error::new(message));
    }
    let ghost before = texts(names@);
    names.push(owned(name));
    assert(texts(names@) =~= before.push(name@));
    Ok(())
}

/// Where a module is to be found.
#[derive(Debug)]
pub struct Location {
    /// The package, by its index; none for a module next to the importing file.
    pub package: Option<usize>,
    /// The segments of its path below the package or the file's directory.
    pub parts: Vec<String>,
    /// The name that its `module` header must give.
    pub module_name: String,
}

/// The first package called `name` among the first `n`.
pub open spec fn package_named(packages: Seq<Seq<char>>, name: Seq<char>, n: nat) -> Option<usize>
    decreases n,
{
    if n == 0 {
        None
    } else {
        match package_named(packages, name, (n - 1) as nat) {
            Some(i) => Some(i),
            None => if packages[n - 1] == name {
                Some((n - 1) as usize)
            } else {
                None
            },
        }
    }
}

/// Whether an import names a package but not a module and an item in it.
pub open spec fn is_incomplete(packages: Seq<Seq<char>>, path: Seq<Seq<char>>) -> bool {
    package_named(packages, path[0], packages.len()) is Some && path.len() < 3
}

/// The segments of the module's path.
pub open spec fn module_parts(packages: Seq<Seq<char>>, path: Seq<Seq<char>>) -> Seq<Seq<char>> {
    if package_named(packages, path[0], packages.len()) is Some {
        path.subrange(1, path.len() - 1)
    } else {
        path.subrange(0, path.len() - 1)
    }
}

fn find_package(packages: &Vec<String>, name: &str) -> (r: Option<usize>)
    ensures
        r == package_named(texts(packages@), name@, packages@.len()),
{
    let ghost all = texts(packages@);
    let mut i: usize = 0;
    while i < packages.len()
        invariant
            i <= packages.len(),
            all == texts(packages@),
            package_named(all, name@, i as nat) is None,
        decreases packages.len() - i,
    {
        assert(all[i as int] == packages@[i as int]@);
        if same(packages[i].as_str(), name) {
            proof {
                first_stays(all, name@, i as nat + 1, packages@.len());
            }
            return Some(i);
        }
        i += 1;
    }
    None
}

proof fn first_stays(packages: Seq<Seq<char>>, name: Seq<char>, i: nat, n: nat)
    requires
        i <= n,
        package_named(packages, name, i) is Some,
    ensures
        package_named(packages, name, n) == package_named(packages, name, i),
    decreases n,
{
    if i < n {
        first_stays(packages, name, i, (n - 1) as nat);
    }
}

fn copy_part(s: &Vec<String>, from: usize, to: usize) -> (r: Vec<String>)
    requires
        from <= to <= s@.len(),
    ensures
        texts(r@) == texts(s@).subrange(from as int, to as int),
{
    let ghost all = texts(s@);
    let mut out: Vec<String> = Vec::new();
    let mut i: usize = from;
    while i < to
        invariant
            from <= i <= to <= s@.len(),
            all == texts(s@),
            out@.len() == i - from,
            forall|k: int| 0 <= k < out@.len() ==> (#[trigger] out@[k])@ == all[from + k],
        decreases to - i,
    {
        out.push(s[i].clone());
        i += 1;
    }
    assert(texts(out@) =~= all.subrange(from as int, to as int));
    out
}

/// Where the module that an import names is to be found. `packages` are the
/// names of the packages; an import without a package name is relative to the
/// importing file.
pub fn locate(packages: &Vec<String>, import: &Import) -> (r: Result<Location, Error>)
    requires
        import.path@.len() > 0,
    ensures
        ({
            let names = texts(packages@);
            let path = texts(import.path@);
            match r {
                Ok(place) => {
                    &&& !is_incomplete(names, path)
                    &&& place.package == package_named(names, path[0], names.len())
                    &&& texts(place.parts@) == module_parts(names, path)
                    &&& place.module_name@ == joined(module_parts(names, path), "."@)
                },
                Err(e) => is_incomplete(names, path) && e@ == located(
                    "Invalid package import"@,
                    import.span@,
                    "package imports must name a module and item"@,
                    None,
                ),
            }
        }),
{
    let ghost path = texts(import.path@);
    assert(path.len() == import.path@.len());
    assert(path[0] == import.path@[0]@);
    assert(texts(packages@).len() == packages@.len());
    let n: usize = import.path.len();
    let package = find_package(packages, import.path[0].as_str());
    if package.is_some() {
        if n < 3 {
            return Err(
                Error::at(
                    "Invalid package import",
                    import.span.copy(),
                    owned("package imports must name a module and item"),
                ),
            );
        }
        let parts = copy_part(&import.path, 1, n - 1);
        let module_name = join(&parts, ".");
        return Ok(Location { package, parts, module_name });
    }
    let parts = copy_part(&import.path, 0, n - 1);
    let module_name = join(&parts, ".");
    Ok(Location { package, parts, module_name })
}

/// The error for a module whose file cannot be found.
pub fn unknown_module(import: &Import, file: &str, reason: &str) -> (r: Error)
    ensures
        r@ == located(
            "Unknown module"@,
            import.span@,
            "failed to resolve module `"@ + file@ + "`: "@ + reason@,
            None,
        ),
{
    let mut message = owned("failed to resolve module `");
    message.push_str(file);
    message.push_str("`: ");
    message.push_str(reason);
    Error::at("Unknown module", import.span.copy(), message)
}

/// What an import leads to.
#[derive(Debug)]
pub enum Target {
    /// No file: why not.
    Refused(Error),
    /// The module at this index.
    Module(usize),
}

/// An import, followed to a module.
#[derive(Debug)]
pub struct Link {
    /// The file of the module, as shown in messages.
    pub file: String,
    /// The name that its `module` header must give.
    pub module_name: String,
    pub target: Target,
}

/// A module that has been parsed.
#[derive(Debug)]
pub struct Parsed {
    pub program: Program,
    /// The errors with which it parsed.
    pub errors: Vec<Error>,
}

/// A module, and where its imports lead.
#[derive(Debug)]
pub struct Unit {
    /// The canonical path of its file.
    pub path: String,
    /// The module, or why it could not be read.
    pub source: Result<Parsed, Error>,
    /// One for each of its imports.
    pub links: Vec<Link>,
}

/// Whether every link leads to one of `n` modules.
pub open spec fn links_within(s: Seq<Link>, n: nat) -> bool {
    forall|k: int|
        0 <= k < s.len() ==> ((#[trigger] s[k]).target matches Target::Module(m) ==> m < n)
}

/// Whether every link of every module leads to a module.
pub open spec fn well_linked(units: Seq<Unit>) -> bool {
    forall|k: int| 0 <= k < units.len() ==> links_within((#[trigger] units[k]).links@, units.len())
}

/// A function and the qualifier that it is to be addressed by, where an import
/// gives it one.
#[derive(Debug)]
pub struct Placed {
    pub function: Function,
    pub qualifier: Option<Vec<String>>,
}

/// What a [`Placed`] says.
#[verifier::ext_equal]
pub struct Addressed {
    pub function: Function,
    pub qualifier: Option<Seq<Seq<char>>>,
}

impl Placed {
    pub open spec fn view(&self) -> Addressed {
        Addressed {
            function: self.function,
            qualifier: match self.qualifier {
                Some(q) => Some(texts(q@)),
                None => None,
            },
        }
    }
}

/// What a list of functions says.
pub open spec fn placed(s: Seq<Placed>) -> Seq<Addressed> {
    s.map_values(|p: Placed| p@)
}

/// The declarations that a module brings in.
#[derive(Debug)]
pub struct Imported {
    pub functions: Vec<Placed>,
    pub externs: Vec<Extern>,
    pub enums: Vec<EnumDecl>,
    pub records: Vec<RecordDecl>,
    pub traits: Vec<TraitDecl>,
    pub impls: Vec<ImplDecl>,
}

/// What an [`Imported`] says.
#[verifier::ext_equal]
pub struct Decls {
    pub functions: Seq<Addressed>,
    pub externs: Seq<Extern>,
    pub enums: Seq<EnumDecl>,
    pub records: Seq<RecordDecl>,
    pub traits: Seq<TraitDecl>,
    pub impls: Seq<ImplDecl>,
}

impl Imported {
    pub open spec fn view(&self) -> Decls {
        Decls {
            functions: placed(self.functions@),
            externs: self.externs@,
            enums: self.enums@,
            records: self.records@,
            traits: self.traits@,
            impls: self.impls@,
        }
    }
}

/// No declarations.
pub open spec fn no_decls() -> Decls {
    Decls {
        functions: Seq::empty(),
        externs: Seq::empty(),
        enums: Seq::empty(),
        records: Seq::empty(),
        traits: Seq::empty(),
        impls: Seq::empty(),
    }
}

/// Declarations, then others.
pub open spec fn then_decls(a: Decls, b: Decls) -> Decls {
    Decls {
        functions: a.functions + b.functions,
        externs: a.externs + b.externs,
        enums: a.enums + b.enums,
        records: a.records + b.records,
        traits: a.traits + b.traits,
        impls: a.impls + b.impls,
    }
}

/// A module's own functions, without a qualifier from an import.
pub open spec fn own_functions(s: Seq<Function>) -> Seq<Addressed> {
    s.map_values(|f: Function| Addressed { function: f, qualifier: None })
}

/// A module's own declarations.
pub open spec fn own_decls(p: Program) -> Decls {
    Decls {
        functions: own_functions(p.functions@),
        externs: p.externs@,
        enums: p.enums@,
        records: p.records@,
        traits: p.traits@,
        impls: p.impls@,
    }
}

/// What an import sees of a function.
#[verifier::ext_equal]
pub struct Head {
    pub name: Seq<char>,
    pub public: bool,
    pub span: Extent,
}

/// What an import sees of functions.
pub open spec fn heads_of(s: Seq<Addressed>) -> Seq<Head> {
    s.map_values(
        |a: Addressed|
            Head {
                name: a.function.name@,
                public: a.function.is_public,
                span: a.function.name_span@,
            },
    )
}

/// A module with its imports expanded.
#[verifier::ext_equal]
pub struct Module {
    pub header: Option<Seq<char>>,
    pub heads: Seq<Head>,
    /// What it brings in, until it has.
    pub body: Option<Decls>,
}

/// How far a module has come.
pub enum Status {
    Unread,
    /// Its imports are being expanded.
    Open,
    /// It could not be read.
    Failed(Problem),
    Done(Module),
}

/// What import resolution carries along.
#[verifier::ext_equal]
pub struct Resolving {
    pub status: Seq<Status>,
    pub errors: Seq<Problem>,
}

/// The first of the first `n` functions called `name`.
pub open spec fn head_named(s: Seq<Head>, name: Seq<char>, n: nat) -> Option<Head>
    decreases n,
{
    if n == 0 {
        None
    } else {
        match head_named(s, name, (n - 1) as nat) {
            Some(h) => Some(h),
            None => if s[n - 1].name == name {
                Some(s[n - 1])
            } else {
                None
            },
        }
    }
}

/// The name of the item that an import names.
pub open spec fn item_of(i: Import) -> Seq<char> {
    if i.path@.len() > 0 {
        i.path@.last()@
    } else {
        Seq::empty()
    }
}

/// The qualifier that an import is written with.
pub open spec fn qualifier_of(i: Import) -> Seq<Seq<char>> {
    if i.path@.len() > 0 {
        texts(i.path@).drop_last()
    } else {
        Seq::empty()
    }
}

/// A function under a qualifier. Private functions and those that have a
/// qualifier stay as they are.
pub open spec fn qualified(a: Addressed, q: Seq<Seq<char>>) -> Addressed {
    if a.function.is_public && a.function.module_segments@.len() == 0 && (match a.qualifier {
        Some(own) => own.len() == 0,
        None => true,
    }) {
        Addressed { qualifier: Some(q), ..a }
    } else {
        a
    }
}

/// Declarations with the functions under a qualifier.
pub open spec fn qualified_decls(d: Decls, q: Seq<Seq<char>>) -> Decls {
    Decls { functions: d.functions.map_values(|a: Addressed| qualified(a, q)), ..d }
}

/// What an import of an item of a module brings in, or why it does not.
pub open spec fn picked(m: Module, i: Import, link: Link) -> Result<Decls, Problem> {
    if m.header != Some(link.module_name@) {
        Err(
            located(
                "Module mismatch"@,
                i.span@,
                "expected module `"@ + link.module_name@ + "` in `"@ + link.file@ + "`"@,
                None,
            ),
        )
    } else {
        match head_named(m.heads, item_of(i), m.heads.len()) {
            None => Err(
                located(
                    "Unknown import"@,
                    i.span@,
                    "`"@ + item_of(i) + "` is not defined"@,
                    None,
                ),
            ),
            Some(h) => if h.public {
                match m.body {
                    Some(d) => Ok(qualified_decls(d, qualifier_of(i))),
                    None => Ok(no_decls()),
                }
            } else {
                Err(
                    located(
                        "Private import"@,
                        h.span,
                        "`"@ + item_of(i) + "` is not public"@,
                        None,
                    ),
                )
            },
        }
    }
}

/// The error for a module that imports itself, directly or not.
pub open spec fn cyclic(path: Seq<char>) -> Problem {
    plain("cyclic import involving `"@ + path + "`"@)
}

/// Follows one import.
pub open spec fn followed(units: Seq<Unit>, st: Resolving, i: Import, link: Link, depth: nat) -> (
    Resolving,
    Result<Decls, Problem>,
)
    decreases depth, 1nat, 0nat,
{
    match link.target {
        Target::Refused(e) => (st, Err(e@)),
        Target::Module(m) => {
            let (s, failed) = loaded(units, st, m as int, depth);
            match failed {
                Some(p) => (s, Err(p)),
                None => match s.status[m as int] {
                    Status::Done(module) => {
                        let r = picked(module, i, link);
                        match r {
                            Ok(_) => (
                                Resolving {
                                    status: s.status.update(
                                        m as int,
                                        Status::Done(Module { body: None, ..module }),
                                    ),
                                    ..s
                                },
                                r,
                            ),
                            Err(_) => (s, r),
                        }
                    },
                    _ => (s, Err(cyclic(units[m as int].path@))),
                },
            }
        },
    }
}

/// Loads a module: expands its imports, once. Modules are nested at most `depth`
/// deep.
pub open spec fn loaded(units: Seq<Unit>, st: Resolving, m: int, depth: nat) -> (
    Resolving,
    Option<Problem>,
)
    decreases depth, 0nat, 0nat,
{
    match st.status[m] {
        Status::Done(_) => (st, None),
        Status::Open => (st, Some(cyclic(units[m].path@))),
        Status::Failed(p) => (st, Some(p)),
        Status::Unread => {
            let open = Resolving { status: st.status.update(m, Status::Open), ..st };
            match units[m].source {
                Err(e) => (
                    Resolving { status: st.status.update(m, Status::Failed(e@)), ..st },
                    Some(e@),
                ),
                Ok(parsed) => if depth == 0 {
                    (open, Some(cyclic(units[m].path@)))
                } else {
                    let told = Resolving {
                        errors: open.errors + problems(parsed.errors@),
                        ..open
                    };
                    let (s, brought) = expanded(
                        units,
                        told,
                        parsed.program.imports@,
                        units[m].links@,
                        shorter(parsed.program.imports@.len(), units[m].links@.len()),
                        (depth - 1) as nat,
                    );
                    let all = then_decls(brought, own_decls(parsed.program));
                    let module = Module {
                        header: opt_text(parsed.program.module),
                        heads: heads_of(all.functions),
                        body: Some(all),
                    };
                    (
                        Resolving { status: s.status.update(m, Status::Done(module)), ..s },
                        None,
                    )
                },
            }
        },
    }
}

/// What the first `n` imports bring in. Each reports its own failure.
pub open spec fn expanded(units: Seq<Unit>, st: Resolving, imports: Seq<Import>, links: Seq<Link>, n: nat, depth: nat) -> (
    Resolving,
    Decls,
)
    decreases depth, 2nat, n,
{
    if n == 0 {
        (st, no_decls())
    } else {
        let (s1, before) = expanded(units, st, imports, links, (n - 1) as nat, depth);
        let (s2, r) = followed(units, s1, imports[n - 1], links[n - 1], depth);
        match r {
            Ok(d) => (s2, then_decls(before, d)),
            Err(p) => (Resolving { errors: s2.errors.push(p), ..s2 }, before),
        }
    }
}

/// A module with its imports expanded.
#[derive(Debug)]
struct Known {
    header: Option<String>,
    heads: Vec<(String, bool, Span)>,
    body: Option<Imported>,
}

spec fn known_heads(s: Seq<(String, bool, Span)>) -> Seq<Head> {
    s.map_values(|h: (String, bool, Span)| Head { name: h.0@, public: h.1, span: h.2@ })
}

impl Known {
    spec fn view(&self) -> Module {
        Module {
            header: opt_text(self.header),
            heads: known_heads(self.heads@),
            body: match self.body {
                Some(d) => Some(d@),
                None => None,
            },
        }
    }
}

#[derive(Debug)]
enum Stage {
    Unread(Unit),
    Open,
    Failed(Error),
    Done(Known),
}

impl Stage {
    spec fn view(&self) -> Status {
        match self {
            Stage::Unread(_) => Status::Unread,
            Stage::Open => Status::Open,
            Stage::Failed(e) => Status::Failed(e@),
            Stage::Done(k) => Status::Done(k@),
        }
    }
}

spec fn statuses(s: Seq<Stage>) -> Seq<Status> {
    s.map_values(|t: Stage| t@)
}

struct Resolver {
    stages: Vec<Stage>,
    /// The canonical paths of the modules.
    paths: Vec<String>,
    errors: Vec<Error>,
}

impl Resolver {
    spec fn view(&self) -> Resolving {
        Resolving { status: statuses(self.stages@), errors: problems(self.errors@) }
    }

    /// Whether it holds the modules that are still to be read.
    spec fn holds(&self, units: Seq<Unit>) -> bool {
        &&& self.stages@.len() == units.len()
        &&& self.paths@.len() == units.len()
        &&& well_linked(units)
        &&& forall|k: int|
            0 <= k < units.len() ==> (#[trigger] self.stages@[k] matches Stage::Unread(u) ==> u
                == units[k])
        &&& forall|k: int| 0 <= k < units.len() ==> (#[trigger] self.paths@[k])@ == units[k].path@
    }

    fn set(&mut self, m: usize, stage: Stage, Ghost(units): Ghost<Seq<Unit>>)
        requires
            old(self).holds(units),
            m < units.len(),
            !(stage is Unread),
        ensures
            final(self).holds(units),
            final(self)@ == (Resolving {
                status: old(self)@.status.update(m as int, stage@),
                ..old(self)@
            }),
    {
        let ghost before = self@;
        self.stages.set(m, stage);
        assert(self@ =~= (Resolving {
            status: before.status.update(m as int, stage@),
            ..before
        }));
    }

    /// Takes the stage of a module, which is open from then on.
    fn take(&mut self, m: usize, Ghost(units): Ghost<Seq<Unit>>) -> (r: Stage)
        requires
            old(self).holds(units),
            m < units.len(),
        ensures
            final(self).holds(units),
            r == old(self).stages@[m as int],
            final(self)@ == (Resolving {
                status: old(self)@.status.update(m as int, Status::Open),
                ..old(self)@
            }),
    {
        let ghost before = self@;
        let mut r = Stage::Open;
        self.stages.set_and_swap(m, &mut r);
        assert(self@ =~= (Resolving {
            status: before.status.update(m as int, Status::Open),
            ..before
        }));
        r
    }

    fn cyclic_error(&self, m: usize) -> (r: Error)
        requires
            m < self.paths@.len(),
        ensures
            r@ == cyclic(self.paths@[m as int]@),
    {
        let mut message = owned("cyclic import involving `");
        message.push_str(self.paths[m].as_str());
        message.push_str("`");
        Error::new(message)
    }

    fn load(&mut self, m: usize, depth: usize, Ghost(units): Ghost<Seq<Unit>>) -> (r: Option<Error>)
        requires
            old(self).holds(units),
            m < units.len(),
        ensures
            final(self).holds(units),
            ({
                let (s, failed) = loaded(units, old(self)@, m as int, depth as nat);
                &&& final(self)@ == s
                &&& failed == match r {
                    Some(e) => Some(e@),
                    None => None,
                }
                &&& failed is None ==> s.status[m as int] is Done
            }),
        decreases depth, 0nat, 0nat,
    {
        let ghost now = self@;
        assert(now.status[m as int] == self.stages@[m as int]@);
        if matches!(&self.stages[m], Stage::Done(_)) {
            return None;
        }
        if matches!(&self.stages[m], Stage::Open) {
            return Some(self.cyclic_error(m));
        }
        if let Stage::Failed(e) = &self.stages[m] {
            return Some(e.copy());
        }
        match self.take(m, Ghost(units)) {
            Stage::Unread(unit) => {
                assert(unit == units[m as int]);
                match unit.source {
                    Err(e) => {
                        let again = e.copy();
                        self.set(m, Stage::Failed(again), Ghost(units));
                        proof {
                            let s = now.status;
                            assert(s.update(m as int, Status::Open).update(
                                m as int,
                                Status::Failed(e@),
                            ) =~= s.update(m as int, Status::Failed(e@)));
                        }
                        Some(e)
                    },
                    Ok(parsed) => {
                        if depth == 0 {
                            return Some(self.cyclic_error(m));
                        }
                        let ghost open = self@;
                        let ghost told = problems(parsed.errors@);
                        let mut errors = parsed.errors;
                        self.errors.append(&mut errors);
                        assert(self@ =~= (Resolving { errors: open.errors + told, ..open }));
                        let mut program = parsed.program;
                        let ghost own = own_decls(program);
                        let ghost written = program.imports@;
                        assert(links_within(units[m as int].links@, units.len()));
                        let mut all = self.expand(
                            &program.imports,
                            unit.links,
                            depth - 1,
                            Ghost(units),
                        );
                        let ghost brought = all@;
                        let mut rest = own_of(&mut program);
                        append(&mut all, &mut rest);
                        assert(all@ =~= then_decls(brought, own));
                        let heads = find_heads(&all.functions);
                        let known = Known { header: program.module, heads, body: Some(all) };
                        self.set(m, Stage::Done(known), Ghost(units));
                        None
                    },
                }
            },
            _ => None,
        }
    }

    fn follow(&mut self, i: &Import, link: Link, depth: usize, Ghost(units): Ghost<Seq<Unit>>) -> (r:
        Result<Imported, Error>)
        requires
            old(self).holds(units),
            link.target matches Target::Module(m) ==> m < units.len(),
        ensures
            final(self).holds(units),
            ({
                let (s, want) = followed(units, old(self)@, *i, link, depth as nat);
                &&& final(self)@ == s
                &&& match r {
                    Ok(d) => want == Ok::<Decls, Problem>(d@),
                    Err(e) => want == Err::<Decls, Problem>(e@),
                }
            }),
        decreases depth, 1nat, 0nat,
    {
        let ghost whole = link;
        match link.target {
            Target::Refused(e) => Err(e),
            Target::Module(m) => {
                if let Some(e) = self.load(m, depth, Ghost(units)) {
                    return Err(e);
                }
                let ghost now = self@;
                assert(now.status[m as int] == self.stages@[m as int]@);
                let missing = self.cyclic_error(m);
                match self.take(m, Ghost(units)) {
                    Stage::Done(known) => {
                        let ghost module = known@;
                        let mut known = known;
                        let r = pick(
                            &mut known,
                            i,
                            link.module_name.as_str(),
                            link.file.as_str(),
                            Ghost(whole),
                        );
                        let ghost left = known@;
                        self.set(m, Stage::Done(known), Ghost(units));
                        proof {
                            let s = now.status;
                            assert(s.update(m as int, Status::Open).update(
                                m as int,
                                Status::Done(left),
                            ) =~= s.update(m as int, Status::Done(left)));
                            assert(s.update(m as int, s[m as int]) =~= s);
                        }
                        r
                    },
                    _ => Err(missing),
                }
            },
        }
    }

    fn expand(&mut self, imports: &Vec<Import>, links: Vec<Link>, depth: usize, Ghost(units): Ghost<
        Seq<Unit>,
    >) -> (r: Imported)
        requires
            old(self).holds(units),
            links_within(links@, units.len()),
        ensures
            final(self).holds(units),
            (final(self)@, r@) == expanded(
                units,
                old(self)@,
                imports@,
                links@,
                shorter(imports@.len(), links@.len()),
                depth as nat,
            ),
        decreases depth, 2nat, 0nat,
    {
        let ghost all = links@;
        let ghost start = self@;
        let mut out = nothing();
        let mut i: usize = 0;
        let n: usize = imports.len();
        for link in iter: links
            invariant
                iter.seq() == all,
                links_within(all, units.len()),
                n == imports@.len(),
                i == shorter(imports@.len(), iter.index() as nat),
                self.holds(units),
                (self@, out@) == expanded(units, start, imports@, all, i as nat, depth as nat),
        {
            if i < n {
                let ghost before = out@;
                let ghost now = self@;
                assert(link == all[i as int]);
                match self.follow(&imports[i], link, depth, Ghost(units)) {
                    Ok(d) => {
                        let ghost got = d@;
                        let mut d = d;
                        append(&mut out, &mut d);
                        assert(out@ =~= then_decls(before, got));
                    },
                    Err(e) => {
                        let ghost s = self@;
                        self.errors.push(e);
                        assert(self@ =~= (Resolving { errors: s.errors.push(e@), ..s }));
                    },
                }
                i += 1;
            }
        }
        out
    }
}

fn nothing() -> (r: Imported)
    ensures
        r@ == no_decls(),
{
    let r = Imported {
        functions: Vec::new(),
        externs: Vec::new(),
        enums: Vec::new(),
        records: Vec::new(),
        traits: Vec::new(),
        impls: Vec::new(),
    };
    assert(r@ =~= no_decls());
    r
}

fn append(a: &mut Imported, b: &mut Imported)
    ensures
        final(a)@ == then_decls(old(a)@, old(b)@),
{
    let ghost first = a@;
    let ghost second = b@;
    a.functions.append(&mut b.functions);
    a.externs.append(&mut b.externs);
    a.enums.append(&mut b.enums);
    a.records.append(&mut b.records);
    a.traits.append(&mut b.traits);
    a.impls.append(&mut b.impls);
    assert(a@ =~= then_decls(first, second));
}

/// Takes the declarations out of a program.
fn own_of(program: &mut Program) -> (r: Imported)
    ensures
        r@ == own_decls(*old(program)),
        final(program).module == old(program).module,
        final(program).imports == old(program).imports,
        final(program).effects == old(program).effects,
{
    let ghost own = own_decls(*program);
    let ghost source = program.functions@;
    let mut r = nothing();
    assert(placed(r.functions@).len() == r.functions@.len());
    let mut functions: Vec<Function> = Vec::new();
    functions.append(&mut program.functions);
    assert(functions@ =~= source);
    for f in iter: functions
        invariant
            iter.seq() == source,
            r.functions@.len() == iter.index(),
            r.externs@.len() == 0,
            r.enums@.len() == 0,
            r.records@.len() == 0,
            r.traits@.len() == 0,
            r.impls@.len() == 0,
            forall|k: int|
                0 <= k < iter.index() ==> (#[trigger] r.functions@[k])@ == own_functions(
                    source,
                )[k],
    {
        r.functions.push(Placed { function: f, qualifier: None });
    }
    r.externs.append(&mut program.externs);
    r.enums.append(&mut program.enums);
    r.records.append(&mut program.records);
    r.traits.append(&mut program.traits);
    r.impls.append(&mut program.impls);
    assert(r@ =~= own);
    r
}

fn find_heads(s: &Vec<Placed>) -> (r: Vec<(String, bool, Span)>)
    ensures
        known_heads(r@) == heads_of(placed(s@)),
{
    let ghost want = heads_of(placed(s@));
    let mut out: Vec<(String, bool, Span)> = Vec::new();
    let mut i: usize = 0;
    while i < s.len()
        invariant
            i <= s.len(),
            want == heads_of(placed(s@)),
            out@.len() == i,
            forall|k: int| 0 <= k < i ==> #[trigger] known_heads(out@)[k] == want[k],
        decreases s.len() - i,
    {
        let f = &s[i].function;
        let ghost before = out@;
        out.push((f.name.clone(), f.is_public, f.name_span.copy()));
        assert forall|k: int| 0 <= k < i + 1 implies #[trigger] known_heads(out@)[k]
            == want[k] by {
            if k < i {
                assert(known_heads(before)[k] == want[k]);
            }
        }
        i += 1;
    }
    assert(known_heads(out@) =~= want);
    out
}

fn qualify(d: &mut Imported, q: &Vec<String>)
    ensures
        final(d)@ == qualified_decls(old(d)@, texts(q@)),
{
    let ghost start = d@;
    let ghost want = qualified_decls(d@, texts(q@));
    let mut functions: Vec<Placed> = Vec::new();
    functions.append(&mut d.functions);
    let ghost source = functions@;
    assert(placed(source) =~= start.functions);
    for p in iter: functions
        invariant
            iter.seq() == source,
            placed(source) == start.functions,
            want == qualified_decls(start, texts(q@)),
            d.functions@.len() == iter.index(),
            d.externs@ == start.externs,
            d.enums@ == start.enums,
            d.records@ == start.records,
            d.traits@ == start.traits,
            d.impls@ == start.impls,
            forall|k: int|
                0 <= k < iter.index() ==> (#[trigger] d.functions@[k])@ == want.functions[k],
    {
        assert(start.functions[iter.index()] == p@);
        let bare = match &p.qualifier {
            Some(own) => {
                assert(texts(own@).len() == own@.len());
                own.len() == 0
            },
            None => true,
        };
        if p.function.is_public && p.function.module_segments.len() == 0 && bare {
            d.functions.push(Placed { function: p.function, qualifier: Some(copy_names(q)) });
        } else {
            d.functions.push(p);
        }
    }
    assert(d@ =~= want);
}

fn find_head<'a>(s: &'a Vec<(String, bool, Span)>, name: &str) -> (r: Option<&'a (
    String,
    bool,
    Span,
)>)
    ensures
        head_named(known_heads(s@), name@, s@.len()) == match r {
            Some(h) => Some(Head { name: h.0@, public: h.1, span: h.2@ }),
            None => None,
        },
{
    let ghost all = known_heads(s@);
    let mut i: usize = 0;
    while i < s.len()
        invariant
            i <= s.len(),
            all == known_heads(s@),
            head_named(all, name@, i as nat) is None,
        decreases s.len() - i,
    {
        if same(s[i].0.as_str(), name) {
            proof {
                assert(all[i as int].name == name@);
                first_head_stays(all, name@, i as nat + 1, s@.len());
            }
            return Some(&s[i]);
        }
        assert(all[i as int].name != name@);
        i += 1;
    }
    None
}

proof fn first_head_stays(s: Seq<Head>, name: Seq<char>, i: nat, n: nat)
    requires
        i <= n,
        head_named(s, name, i) is Some,
    ensures
        head_named(s, name, n) == head_named(s, name, i),
    decreases n,
{
    if i < n {
        first_head_stays(s, name, i, (n - 1) as nat);
    }
}

fn is_header(header: &Option<String>, name: &str) -> (r: bool)
    ensures
        r == (opt_text(*header) == Some(name@)),
{
    match header {
        Some(h) => same(h.as_str(), name),
        None => false,
    }
}

/// Takes what an import of an item of a module brings in.
fn pick(m: &mut Known, i: &Import, module_name: &str, file: &str, Ghost(link): Ghost<Link>) -> (r:
    Result<Imported, Error>)
    requires
        link.module_name@ == module_name@,
        link.file@ == file@,
    ensures
        match r {
            Ok(d) => {
                &&& picked(old(m)@, *i, link) == Ok::<Decls, Problem>(d@)
                &&& final(m)@ == (Module { body: None, ..old(m)@ })
            },
            Err(e) => {
                &&& picked(old(m)@, *i, link) == Err::<Decls, Problem>(e@)
                &&& final(m)@ == old(m)@
            },
        },
{
    let ghost now = m@;
    if !is_header(&m.header, module_name) {
        let mut message = owned("expected module `");
        message.push_str(module_name);
        message.push_str("` in `");
        message.push_str(file);
        message.push_str("`");
        return Err(Error::at("Module mismatch", i.span.copy(), message));
    }
    let item = i.item_name();
    assert(item@ == item_of(*i));
    assert(now.heads.len() == m.heads@.len());
    match find_head(&m.heads, item) {
        None => {
            let mut message = owned("`");
            message.push_str(item);
            message.push_str("` is not defined");
            Err(Error::at("Unknown import", i.span.copy(), message))
        },
        Some(h) => {
            if !h.1 {
                let mut message = owned("`");
                message.push_str(item);
                message.push_str("` is not public");
                return Err(Error::at("Private import", h.2.copy(), message));
            }
            let mut body: Option<Imported> = None;
            std::mem::swap(&mut body, &mut m.body);
            assert(m@ =~= (Module { body: None, ..now }));
            match body {
                Some(d) => {
                    let mut d = d;
                    let q = qualifier(i);
                    qualify(&mut d, &q);
                    Ok(d)
                },
                None => Ok(nothing()),
            }
        },
    }
}

fn qualifier(i: &Import) -> (r: Vec<String>)
    ensures
        texts(r@) == qualifier_of(*i),
{
    assert(texts(i.path@).len() == i.path@.len());
    if i.path.len() == 0 {
        let none: Vec<String> = Vec::new();
        assert(texts(none@) =~= Seq::<Seq<char>>::empty());
        return none;
    }
    let r = copy_part(&i.path, 0, i.path.len() - 1);
    assert(texts(r@) =~= texts(i.path@).drop_last());
    r
}

/// Whether `f` is a function under the qualifier that an import gave it.
pub open spec fn is_stamped(a: Addressed, f: Function) -> bool {
    &&& f == (Function { module_segments: f.module_segments, ..a.function })
    &&& texts(f.module_segments@) == match a.qualifier {
        Some(q) => q,
        None => texts(a.function.module_segments@),
    }
}

/// Whether functions are those under their qualifiers.
pub open spec fn are_stamped(s: Seq<Addressed>, fs: Seq<Function>) -> bool {
    s.len() == fs.len() && forall|k: int|
        0 <= k < s.len() ==> is_stamped(#[trigger] s[k], fs[k])
}

fn stamp(s: Vec<Placed>) -> (r: Vec<Function>)
    ensures
        are_stamped(placed(s@), r@),
{
    let ghost source = s@;
    let mut out: Vec<Function> = Vec::new();
    for p in iter: s
        invariant
            iter.seq() == source,
            out@.len() == iter.index(),
            forall|k: int|
                0 <= k < iter.index() ==> is_stamped(source[k]@, #[trigger] out@[k]),
    {
        let mut f = p.function;
        if let Some(q) = p.qualifier {
            f.module_segments = q;
        }
        out.push(f);
    }
    out
}

/// Whether `r` is a program with its imports expanded to `d`. The declarations
/// that are imported come first, then the program's own.
pub open spec fn is_expanded(program: Program, d: Decls, r: Program) -> bool {
    let all = then_decls(d, own_decls(program));
    &&& r.module == program.module
    &&& r.imports@.len() == 0
    &&& are_stamped(all.functions, r.functions@)
    &&& r.externs@ == all.externs
    &&& r.enums@ == all.enums
    &&& r.records@ == all.records
    &&& r.traits@ == all.traits
    &&& r.impls@ == all.impls
    &&& r.effects == program.effects
}

/// Nothing read.
pub open spec fn unread(n: nat) -> Resolving {
    Resolving { status: Seq::new(n, |i: int| Status::Unread), errors: Seq::empty() }
}

/// Expands the imports of a program. `links` tells where they lead, `units` are
/// the modules that they and the modules' own imports lead to.
pub fn resolve_imports(program: Program, links: Vec<Link>, units: Vec<Unit>) -> (r: (
    Program,
    Vec<Error>,
))
    requires
        links_within(links@, units@.len()),
        well_linked(units@),
    ensures
        ({
            let (s, d) = expanded(
                units@,
                unread(units@.len()),
                program.imports@,
                links@,
                shorter(program.imports@.len(), links@.len()),
                units@.len(),
            );
            is_expanded(program, d, r.0) && problems(r.1@) == s.errors
        }),
{
    let ghost source = units@;
    let n: usize = units.len();
    let mut resolver = Resolver { stages: Vec::new(), paths: Vec::new(), errors: Vec::new() };
    for unit in iter: units
        invariant
            iter.seq() == source,
            resolver.errors@.len() == 0,
            resolver.stages@.len() == iter.index(),
            resolver.paths@.len() == iter.index(),
            forall|k: int|
                0 <= k < iter.index() ==> #[trigger] resolver.stages@[k] == Stage::Unread(
                    source[k],
                ),
            forall|k: int|
                0 <= k < iter.index() ==> (#[trigger] resolver.paths@[k])@ == source[k].path@,
    {
        resolver.paths.push(unit.path.clone());
        resolver.stages.push(Stage::Unread(unit));
    }
    assert(resolver@ =~= unread(source.len())) by {
        assert(statuses(resolver.stages@) =~= unread(source.len()).status);
    }
    let mut program = program;
    let ghost own = own_decls(program);
    let mut all = resolver.expand(&program.imports, links, n, Ghost(source));
    let ghost brought = all@;
    let mut rest = own_of(&mut program);
    append(&mut all, &mut rest);
    assert(all@ =~= then_decls(brought, own));
    let expanded_program = Program {
        module: program.module,
        imports: Vec::new(),
        functions: stamp(all.functions),
        externs: all.externs,
        enums: all.enums,
        records: all.records,
        traits: all.traits,
        impls: all.impls,
        effects: program.effects,
    };
    (expanded_program, resolver.errors)
}

/// A module brings in its declarations once: after an import of one of its items
/// has succeeded, a further one adds nothing.
pub proof fn modules_are_brought_in_once(m: Module, first: Import, second: Import, a: Link, b: Link)
    requires
        picked(m, first, a) is Ok,
    ensures
        picked(Module { body: None, ..m }, second, b) matches Ok(d) ==> d == no_decls(),
        picked(Module { body: None, ..m }, second, b) is Ok <==> picked(m, second, b) is Ok,
{
}

/// A module that could not be read fails every import of it in the same way, and
/// is read no further.
pub proof fn read_errors_are_repeated(units: Seq<Unit>, st: Resolving, m: int, a: nat, b: nat)
    requires
        0 <= m < units.len(),
        st.status.len() == units.len(),
        st.status[m] is Unread,
        units[m].source is Err,
    ensures
        ({
            let (s, failed) = loaded(units, st, m, a);
            failed == Some(units[m].source->Err_0@) && loaded(units, s, m, b) == (s, failed)
        }),
{
}

/// The number of modules that are not read.
pub open spec fn left_unread(s: Seq<Status>) -> nat
    decreases s.len(),
{
    if s.len() == 0 {
        0
    } else {
        left_unread(s.drop_last()) + if s.last() is Unread {
            1nat
        } else {
            0nat
        }
    }
}

proof fn lemma_update(s: Seq<Status>, m: int, to: Status)
    requires
        0 <= m < s.len(),
        !(to is Unread),
    ensures
        s[m] is Unread ==> left_unread(s.update(m, to)) + 1 == left_unread(s),
        !(s[m] is Unread) ==> left_unread(s.update(m, to)) == left_unread(s),
    decreases s.len(),
{
    let t = s.update(m, to);
    if m == s.len() - 1 {
        assert(t.drop_last() =~= s.drop_last());
    } else {
        assert(t.drop_last() =~= s.drop_last().update(m, to));
        lemma_update(s.drop_last(), m, to);
    }
}

/// Whether modules and what is known of them belong together.
spec fn fits(units: Seq<Unit>, st: Resolving) -> bool {
    st.status.len() == units.len() && well_linked(units)
}

proof fn lemma_loaded(units: Seq<Unit>, st: Resolving, m: int, a: nat, b: nat)
    requires
        fits(units, st),
        0 <= m < units.len(),
        left_unread(st.status) <= a,
        left_unread(st.status) <= b,
    ensures
        loaded(units, st, m, a) == loaded(units, st, m, b),
        fits(units, loaded(units, st, m, a).0),
        left_unread(loaded(units, st, m, a).0.status) <= left_unread(st.status),
        loaded(units, st, m, a).1 is None ==> loaded(units, st, m, a).0.status[m] is Done,
    decreases a, 0nat, 0nat,
{
    if st.status[m] is Unread {
        lemma_update(st.status, m, Status::Open);
        if let Err(e) = units[m].source {
            lemma_update(st.status, m, Status::Failed(e@));
        }
        let open = Resolving { status: st.status.update(m, Status::Open), ..st };
        if let Ok(parsed) = units[m].source {
            let told = Resolving { errors: open.errors + problems(parsed.errors@), ..open };
            let n = shorter(parsed.program.imports@.len(), units[m].links@.len());
            assert(links_within(units[m].links@, units.len()));
            lemma_expanded(
                units,
                told,
                parsed.program.imports@,
                units[m].links@,
                n,
                (a - 1) as nat,
                (b - 1) as nat,
            );
            let (s, brought) = expanded(
                units,
                told,
                parsed.program.imports@,
                units[m].links@,
                n,
                (a - 1) as nat,
            );
            let all = then_decls(brought, own_decls(parsed.program));
            let module = Module {
                header: opt_text(parsed.program.module),
                heads: heads_of(all.functions),
                body: Some(all),
            };
            lemma_update(s.status, m, Status::Done(module));
        }
    }
}

proof fn lemma_follow(units: Seq<Unit>, st: Resolving, i: Import, link: Link, a: nat, b: nat)
    requires
        fits(units, st),
        link.target matches Target::Module(m) ==> m < units.len(),
        left_unread(st.status) <= a,
        left_unread(st.status) <= b,
    ensures
        followed(units, st, i, link, a) == followed(units, st, i, link, b),
        fits(units, followed(units, st, i, link, a).0),
        left_unread(followed(units, st, i, link, a).0.status) <= left_unread(st.status),
    decreases a, 1nat, 0nat,
{
    if let Target::Module(m) = link.target {
        lemma_loaded(units, st, m as int, a, b);
        let s = loaded(units, st, m as int, a).0;
        if let Status::Done(module) = s.status[m as int] {
            lemma_update(
                s.status,
                m as int,
                Status::Done(Module { body: None, ..module }),
            );
        }
    }
}

proof fn lemma_expanded(units: Seq<Unit>, st: Resolving, imports: Seq<Import>, links: Seq<Link>, n: nat, a: nat, b: nat)
    requires
        fits(units, st),
        links_within(links, units.len()),
        n <= links.len(),
        left_unread(st.status) <= a,
        left_unread(st.status) <= b,
    ensures
        expanded(units, st, imports, links, n, a) == expanded(units, st, imports, links, n, b),
        fits(units, expanded(units, st, imports, links, n, a).0),
        left_unread(expanded(units, st, imports, links, n, a).0.status) <= left_unread(st.status),
    decreases a, 2nat, n,
{
    if n > 0 {
        let m = (n - 1) as nat;
        lemma_expanded(units, st, imports, links, m, a, b);
        let s = expanded(units, st, imports, links, m, a).0;
        assert(links[m as int] == links[n - 1]);
        lemma_follow(units, s, imports[n - 1], links[n - 1], a, b);
    }
}

/// The bound on how deep modules nest never matters: no chain of imports is
/// longer than there are modules.
pub proof fn nesting_is_never_cut_short(units: Seq<Unit>, imports: Seq<Import>, links: Seq<Link>, n: nat, depth: nat)
    requires
        well_linked(units),
        links_within(links, units.len()),
        n <= links.len(),
        depth >= units.len(),
    ensures
        expanded(units, unread(units.len()), imports, links, n, depth) == expanded(
            units,
            unread(units.len()),
            imports,
            links,
            n,
            units.len(),
        ),
{
    let st = unread(units.len());
    lemma_count(st.status);
    lemma_expanded(units, st, imports, links, n, depth, units.len());
}

proof fn lemma_count(s: Seq<Status>)
    ensures
        left_unread(s) <= s.len(),
    decreases s.len(),
{
    if s.len() > 0 {
        lemma_count(s.drop_last());
    }
}

} // verus!
