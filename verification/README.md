# Emela compiler core

The core of the Emela compiler as a verified library: lexing, formatting,
linting, import resolution, lowering to a typed intermediate representation,
reference counting, and the JavaScript and WebAssembly backends, together with
what the command line and the hosts of a running module decide. Every function
of `src/` carries a contract that Verus proves, except for the small functions
that call into other crates and the standard library: their contracts are taken
on trust, and each says in its comment what it claims.

## Layout

- `src/lexer.rs`, `src/ast.rs`, `src/ast_walk.rs`: tokens and syntax trees.
- `src/fmt.rs` and `src/fmt/`: the formatter.
- `src/lint.rs`: the linter.
- `src/imports.rs`, `src/resolve.rs`: modules and names.
- `src/lower.rs` and `src/lower/`, `src/subst.rs`, `src/tail.rs`: lowering,
  specialization of generics, self tail calls as jumps.
- `src/ir.rs`, `src/ir_walk.rs`, `src/ir_text.rs`: the intermediate
  representation.
- `src/rc.rs` and `src/rc/`: reference counting.
- `src/js.rs`, `src/wasm.rs` and `src/wasm/`, `src/wasip2.rs` and `src/wasip2/`:
  backends.
- `src/plugin.rs`, `src/manifest.rs`, `src/platform.rs`, `src/intrinsic.rs`: what
  backends provide and are asked for.
- `src/driver.rs`, `src/error.rs`: what the commands decide and report.
- `src/abi.rs`, `src/http.rs`, `src/files.rs`: the host side of a running module.
- `app/`: the command line, files, processes and sockets around the library.
  Parsing, type checking and the package manager plug in through a trait.
- `tests/`: the library from outside.
