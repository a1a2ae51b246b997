//! The Emela compiler core.

pub mod abi;
pub mod ast;
pub mod ast_walk;
pub mod backend;
pub mod debug;
pub mod driver;
pub mod error;
pub mod files;
pub mod fmt;
pub mod http;
pub mod imports;
pub mod intrinsic;
pub mod ir;
pub mod ir_text;
pub mod ir_walk;
pub mod js;
pub mod json;
pub mod lexer;
pub mod lint;
pub mod lower;
pub mod manifest;
pub mod meaning;
pub mod platform;
pub mod plugin;
pub mod rc;
pub mod resolve;
pub mod scan;
pub mod source;
pub mod strings;
pub mod subst;
pub mod tail;
pub mod typed;
pub mod types;
pub mod wasip2;
pub mod wasm;
