//! JavaScript backend (Tier 2).
//!
//! Emits a `"use strict"` module of plain functions, relying on JavaScript's
//! lexical scoping for closures, and logs `main()`'s result unless it is Unit.
//!
//! Platform functions are resolved by a bundled default runtime object `__rt`;
//! only the platform functions the program uses are emitted.

use vstd::prelude::*;
use vstd::utf8::encode_utf8;

use crate::backend::{Artifact, ArtifactKind, Backend, BackendError, BackendOptions, Tier};
use crate::ir::{
    arm_nodes, nodes, opt_bind, opt_binds, param_binds, ArmNode, Bind, FnNode, IrArm, IrExpr,
    IrFunction, IrParam, IrPattern, IrProgram, Node, Pat, QuestionMode,
};
use crate::intrinsic::{find_entry, interface, is_intrinsic, lookup_finds_the_named_entry};
use crate::ir_text::{bool_text, push_bool};
use crate::ir_walk::{
    first_occurrences, intrinsic_names, platform_names, preorder_program, used_intrinsics,
    used_platform_fns,
};
use crate::strings::{
    chars_of, debug_string, debug_text, decimal, decimal_int, join, joined, owned, push_decimal,
    push_decimal_int, same, texts,
};
use crate::types::{BinaryOp, Ty, Type};

pub mod faithful;
pub mod function;
pub mod run;

verus! {

/// The Node.js-flavored JavaScript backend.
pub struct JsBackend;

/// The JavaScript of a platform function this backend provides.
pub open spec fn runtime_text(name: Seq<char>) -> Option<Seq<char>> {
    if name == "io.write_stdout"@ {
        Some("(s) => process.stdout.write(s)"@)
    } else if name == "io.write_stderr"@ {
        Some("(s) => process.stderr.write(s)"@)
    } else if name == "clock.monotonic_seconds"@ {
        Some("() => Math.floor(Date.now() / 1000)"@)
    } else {
        None
    }
}

/// The platform functions this backend provides, with their JS implementations.
fn runtime_impl(name: &str) -> (r: Option<&'static str>)
    ensures
        match r {
            Some(body) => runtime_text(name@) == Some(body@),
            None => runtime_text(name@) is None,
        },
{
    if same(name, "io.write_stdout") {
        Some("(s) => process.stdout.write(s)")
    } else if same(name, "io.write_stderr") {
        Some("(s) => process.stderr.write(s)")
    } else if same(name, "clock.monotonic_seconds") {
        Some("() => Math.floor(Date.now() / 1000)")
    } else {
        None
    }
}

/// The JavaScript around the arguments of an intrinsic: what stands before the
/// first, behind the first, behind the second and at the end.
#[verifier::ext_equal]
pub struct Form {
    pub open: Seq<char>,
    pub first: Seq<char>,
    pub second: Seq<char>,
    pub close: Seq<char>,
}

/// A form, from its four texts.
pub open spec fn form(open: Seq<char>, first: Seq<char>, second: Seq<char>, close: Seq<char>) -> Form {
    Form { open, first, second, close }
}

/// The native expression an intrinsic inlines to.
///
/// Integer division truncates toward zero, and a logical shift gives an `Int`
/// again. `===` on strings is exact; `<` is UTF-16 lexicographic order, which
/// agrees with byte order for ASCII and BMP text. Positions in a string count
/// code points, and the bounds of a slice are clamped. A `Char` is its scalar
/// value as a number, `Bytes` are a `Uint8Array`.
pub open spec fn form_of(name: Seq<char>) -> Option<Form> {
    if name == "i32_add"@ {
        Some(form("("@, " + "@, ""@, ")"@))
    } else if name == "i32_sub"@ {
        Some(form("("@, " - "@, ""@, ")"@))
    } else if name == "i32_mul"@ {
        Some(form("("@, " * "@, ""@, ")"@))
    } else if name == "i32_div_s"@ {
        Some(form("(("@, " / "@, ""@, ") | 0)"@))
    } else if name == "i32_rem_s"@ {
        Some(form("("@, " % "@, ""@, ")"@))
    } else if name == "i32_and"@ {
        Some(form("("@, " & "@, ""@, ")"@))
    } else if name == "i32_or"@ {
        Some(form("("@, " | "@, ""@, ")"@))
    } else if name == "i32_xor"@ {
        Some(form("("@, " ^ "@, ""@, ")"@))
    } else if name == "i32_shl"@ {
        Some(form("("@, " << "@, ""@, ")"@))
    } else if name == "i32_shr_s"@ {
        Some(form("("@, " >> "@, ""@, ")"@))
    } else if name == "i32_shr_u"@ {
        Some(form("(("@, " >>> "@, ""@, ") | 0)"@))
    } else if name == "i32_eq"@ {
        Some(form("("@, " === "@, ""@, ")"@))
    } else if name == "i32_lt_s"@ {
        Some(form("("@, " < "@, ""@, ")"@))
    } else if name == "f64_add"@ {
        Some(form("("@, " + "@, ""@, ")"@))
    } else if name == "f64_sub"@ {
        Some(form("("@, " - "@, ""@, ")"@))
    } else if name == "f64_mul"@ {
        Some(form("("@, " * "@, ""@, ")"@))
    } else if name == "f64_div"@ {
        Some(form("("@, " / "@, ""@, ")"@))
    } else if name == "f64_eq"@ {
        Some(form("("@, " === "@, ""@, ")"@))
    } else if name == "f64_lt"@ {
        Some(form("("@, " < "@, ""@, ")"@))
    } else if name == "f64_sqrt"@ {
        Some(form("Math.sqrt("@, ""@, ""@, ")"@))
    } else if name == "string_concat"@ {
        Some(form("("@, " + "@, ""@, ")"@))
    } else if name == "string_eq"@ {
        Some(form("("@, " === "@, ""@, ")"@))
    } else if name == "string_lt"@ {
        Some(form("("@, " < "@, ""@, ")"@))
    } else if name == "string_length"@ {
        Some(form("Array.from("@, ""@, ""@, ").length"@))
    } else if name == "string_char_at"@ {
        Some(form("Array.from("@, ")["@, ""@, "].codePointAt(0)"@))
    } else if name == "string_slice"@ {
        Some(form("Array.from("@, ").slice(Math.max(0, "@, "), Math.max(0, "@, ")).join(\"\")"@))
    } else if name == "char_code"@ {
        Some(form("("@, ""@, ""@, ")"@))
    } else if name == "char_from_code"@ {
        Some(form("("@, ""@, ""@, ")"@))
    } else if name == "string_from_char"@ {
        Some(form("String.fromCodePoint("@, ""@, ""@, ")"@))
    } else if name == "bytes_length"@ {
        Some(form("("@, ""@, ""@, ").length"@))
    } else if name == "bytes_get_unchecked"@ {
        Some(form("("@, ")["@, ""@, "]"@))
    } else if name == "bytes_slice"@ {
        Some(form("("@, ").slice(Math.max(0, "@, "), Math.max(0, "@, "))"@))
    } else if name == "bytes_concat"@ {
        Some(form("Uint8Array.from([..."@, ", ..."@, ""@, "])"@))
    } else if name == "bytes_eq"@ {
        Some(form("(Buffer.compare("@, ", "@, ""@, ") === 0)"@))
    } else if name == "bytes_from_string"@ {
        Some(form("new TextEncoder().encode("@, ""@, ""@, ")"@))
    } else if name == "bytes_as_string_unchecked"@ {
        Some(form("new TextDecoder(\"utf-8\", { ignoreBOM: true }).decode("@, ""@, ""@, ")"@))
    } else if name == "array_length"@ {
        Some(form("("@, ""@, ""@, ").length"@))
    } else if name == "array_get_unchecked"@ {
        Some(form("("@, ")["@, ""@, "]"@))
    } else if name == "array_push"@ {
        Some(form("[..."@, ", "@, ""@, "]"@))
    } else {
        None
    }
}

fn intrinsic_form(name: &str) -> (r: Option<
    (&'static str, &'static str, &'static str, &'static str),
>)
    ensures
        match r {
            Some((open, first, second, close)) => form_of(name@) == Some(
                form(open@, first@, second@, close@),
            ),
            None => form_of(name@) is None,
        },
{
    if same(name, "i32_add") {
        Some(("(", " + ", "", ")"))
    } else if same(name, "i32_sub") {
        Some(("(", " - ", "", ")"))
    } else if same(name, "i32_mul") {
        Some(("(", " * ", "", ")"))
    } else if same(name, "i32_div_s") {
        Some(("((", " / ", "", ") | 0)"))
    } else if same(name, "i32_rem_s") {
        Some(("(", " % ", "", ")"))
    } else if same(name, "i32_and") {
        Some(("(", " & ", "", ")"))
    } else if same(name, "i32_or") {
        Some(("(", " | ", "", ")"))
    } else if same(name, "i32_xor") {
        Some(("(", " ^ ", "", ")"))
    } else if same(name, "i32_shl") {
        Some(("(", " << ", "", ")"))
    } else if same(name, "i32_shr_s") {
        Some(("(", " >> ", "", ")"))
    } else if same(name, "i32_shr_u") {
        Some(("((", " >>> ", "", ") | 0)"))
    } else if same(name, "i32_eq") {
        Some(("(", " === ", "", ")"))
    } else if same(name, "i32_lt_s") {
        Some(("(", " < ", "", ")"))
    } else if same(name, "f64_add") {
        Some(("(", " + ", "", ")"))
    } else if same(name, "f64_sub") {
        Some(("(", " - ", "", ")"))
    } else if same(name, "f64_mul") {
        Some(("(", " * ", "", ")"))
    } else if same(name, "f64_div") {
        Some(("(", " / ", "", ")"))
    } else if same(name, "f64_eq") {
        Some(("(", " === ", "", ")"))
    } else if same(name, "f64_lt") {
        Some(("(", " < ", "", ")"))
    } else if same(name, "f64_sqrt") {
        Some(("Math.sqrt(", "", "", ")"))
    } else if same(name, "string_concat") {
        Some(("(", " + ", "", ")"))
    } else if same(name, "string_eq") {
        Some(("(", " === ", "", ")"))
    } else if same(name, "string_lt") {
        Some(("(", " < ", "", ")"))
    } else if same(name, "string_length") {
        Some(("Array.from(", "", "", ").length"))
    } else if same(name, "string_char_at") {
        Some(("Array.from(", ")[", "", "].codePointAt(0)"))
    } else if same(name, "string_slice") {
        Some(("Array.from(", ").slice(Math.max(0, ", "), Math.max(0, ", ")).join(\"\")"))
    } else if same(name, "char_code") {
        Some(("(", "", "", ")"))
    } else if same(name, "char_from_code") {
        Some(("(", "", "", ")"))
    } else if same(name, "string_from_char") {
        Some(("String.fromCodePoint(", "", "", ")"))
    } else if same(name, "bytes_length") {
        Some(("(", "", "", ").length"))
    } else if same(name, "bytes_get_unchecked") {
        Some(("(", ")[", "", "]"))
    } else if same(name, "bytes_slice") {
        Some(("(", ").slice(Math.max(0, ", "), Math.max(0, ", "))"))
    } else if same(name, "bytes_concat") {
        Some(("Uint8Array.from([...", ", ...", "", "])"))
    } else if same(name, "bytes_eq") {
        Some(("(Buffer.compare(", ", ", "", ") === 0)"))
    } else if same(name, "bytes_from_string") {
        Some(("new TextEncoder().encode(", "", "", ")"))
    } else if same(name, "bytes_as_string_unchecked") {
        Some(("new TextDecoder(\"utf-8\", { ignoreBOM: true }).decode(", "", "", ")"))
    } else if same(name, "array_length") {
        Some(("(", "", "", ").length"))
    } else if same(name, "array_get_unchecked") {
        Some(("(", ")[", "", "]"))
    } else if same(name, "array_push") {
        Some(("[...", ", ", "", "]"))
    } else {
        None
    }
}

/// Every intrinsic of the interface has a JavaScript form, and nothing else has:
/// the backend rejects only names that are not intrinsics.
pub proof fn every_intrinsic_is_inlined(name: Seq<char>)
    ensures
        find_entry(interface(), name) is Some <==> form_of(name) is Some,
{
    lookup_finds_the_named_entry(interface(), name);
    let s = interface();
    assert(s[0].name == "i32_add"@);
    assert(s[1].name == "i32_sub"@);
    assert(s[2].name == "i32_mul"@);
    assert(s[3].name == "i32_div_s"@);
    assert(s[4].name == "i32_rem_s"@);
    assert(s[5].name == "i32_and"@);
    assert(s[6].name == "i32_or"@);
    assert(s[7].name == "i32_xor"@);
    assert(s[8].name == "i32_shl"@);
    assert(s[9].name == "i32_shr_s"@);
    assert(s[10].name == "i32_shr_u"@);
    assert(s[11].name == "i32_eq"@);
    assert(s[12].name == "i32_lt_s"@);
    assert(s[13].name == "f64_add"@);
    assert(s[14].name == "f64_sub"@);
    assert(s[15].name == "f64_mul"@);
    assert(s[16].name == "f64_div"@);
    assert(s[17].name == "f64_eq"@);
    assert(s[18].name == "f64_lt"@);
    assert(s[19].name == "f64_sqrt"@);
    assert(s[20].name == "string_concat"@);
    assert(s[21].name == "string_eq"@);
    assert(s[22].name == "string_lt"@);
    assert(s[23].name == "string_length"@);
    assert(s[24].name == "string_char_at"@);
    assert(s[25].name == "string_slice"@);
    assert(s[26].name == "char_code"@);
    assert(s[27].name == "char_from_code"@);
    assert(s[28].name == "string_from_char"@);
    assert(s[29].name == "bytes_length"@);
    assert(s[30].name == "bytes_get_unchecked"@);
    assert(s[31].name == "bytes_slice"@);
    assert(s[32].name == "bytes_concat"@);
    assert(s[33].name == "bytes_eq"@);
    assert(s[34].name == "bytes_from_string"@);
    assert(s[35].name == "bytes_as_string_unchecked"@);
    assert(s[36].name == "array_length"@);
    assert(s[37].name == "array_get_unchecked"@);
    assert(s[38].name == "array_push"@);
    if find_entry(s, name) is Some {
        let i = choose|i: int| 0 <= i < s.len() && (#[trigger] s[i]).name == name;
        assert(s.len() == 39);
        assert(form_of(s[i].name) is Some);
    }
}

/// A character of an identifier: letters, digits and underscores stay, every
/// other character becomes an underscore.
pub open spec fn js_char(c: char) -> char {
    if ('a' <= c && c <= 'z') || ('A' <= c && c <= 'Z') || ('0' <= c && c <= '9') || c == '_' {
        c
    } else {
        '_'
    }
}

/// The JavaScript identifier of a name.
pub open spec fn js_ident(name: Seq<char>) -> Seq<char> {
    if name == "main"@ {
        "main"@
    } else {
        name.map_values(|c: char| js_char(c))
    }
}

/// The JavaScript identifier of `name`.
pub fn js_name(name: &str) -> (r: String)
    ensures
        r@ == js_ident(name@),
{
    if same(name, "main") {
        return owned("main");
    }
    let chars = chars_of(name);
    let mut out = String::new();
    let mut i: usize = 0;
    while i < chars.len()
        invariant
            i <= chars.len(),
            chars@ == name@,
            out@ == name@.take(i as int).map_values(|c: char| js_char(c)),
        decreases chars.len() - i,
    {
        let c: char = chars[i];
        if ('a' <= c && c <= 'z') || ('A' <= c && c <= 'Z') || ('0' <= c && c <= '9') || c == '_' {
            out.push(c);
        } else {
            out.push('_');
        }
        proof {
            assert(out@ =~= name@.take(i + 1).map_values(|c: char| js_char(c)));
        }
        i += 1;
    }
    assert(name@.take(name@.len() as int) =~= name@);
    out
}

/// The identifiers of a list of parameters, separated by commas.
pub open spec fn js_params(params: Seq<Bind>) -> Seq<char> {
    joined(params.map_values(|b: Bind| js_ident(b.name)), ", "@)
}

fn params_text(params: &Vec<IrParam>) -> (r: String)
    ensures
        r@ == js_params(param_binds(params@)),
{
    let mut names: Vec<String> = Vec::new();
    let mut i: usize = 0;
    while i < params.len()
        invariant
            i <= params.len(),
            names@.len() == i,
            forall|j: int| 0 <= j < i ==> (#[trigger] names@[j])@ == js_ident(params@[j].name@),
        decreases params.len() - i,
    {
        names.push(js_name(params[i].name.as_str()));
        i += 1;
    }
    assert(texts(names@) =~= param_binds(params@).map_values(|b: Bind| js_ident(b.name)));
    join(&names, ", ")
}

/// The JavaScript operator of a binary operator; integer division is handled
/// apart, because it truncates toward zero.
pub open spec fn binary_op(op: BinaryOp) -> Seq<char> {
    match op {
        BinaryOp::Add => " + "@,
        BinaryOp::Sub => " - "@,
        BinaryOp::Mul => " * "@,
        BinaryOp::Div => " / "@,
        BinaryOp::Rem => " % "@,
        BinaryOp::Concat => " + "@,
        BinaryOp::Eq => " === "@,
        BinaryOp::Lt => " < "@,
        BinaryOp::Ne => " !== "@,
        BinaryOp::Gt => " > "@,
        BinaryOp::Le => " <= "@,
        BinaryOp::Ge => " >= "@,
        BinaryOp::Shl => " << "@,
        BinaryOp::Shr => " >> "@,
        BinaryOp::UShr => " >>> "@,
    }
}

fn binary_operator(op: BinaryOp) -> (r: &'static str)
    ensures
        r@ == binary_op(op),
{
    match op {
        BinaryOp::Add => " + ",
        BinaryOp::Sub => " - ",
        BinaryOp::Mul => " * ",
        BinaryOp::Div => " / ",
        BinaryOp::Rem => " % ",
        BinaryOp::Concat => " + ",
        BinaryOp::Eq => " === ",
        BinaryOp::Lt => " < ",
        BinaryOp::Ne => " !== ",
        BinaryOp::Gt => " > ",
        BinaryOp::Le => " <= ",
        BinaryOp::Ge => " >= ",
        BinaryOp::Shl => " << ",
        BinaryOp::Shr => " >> ",
        BinaryOp::UShr => " >>> ",
    }
}

/// `out` followed by an expression as JavaScript. `me` names the function the
/// expression belongs to, the target of its self calls.
pub open spec fn js(out: Seq<char>, me: Seq<char>, e: Node) -> Seq<char>
    decreases e, 0nat,
{
    match e {
        Node::Int(value) => out + decimal_int(value as int),
        Node::Float(value) => out + value,
        Node::Bool(value) => out + bool_text(value),
        Node::String(value) => out + debug_text(value),
        // A `Char` is its Unicode scalar value as a number.
        Node::Char(value) => out + decimal(value as nat),
        Node::CharFromCode(value) => js(out, me, *value),
        Node::StringFromChar(value) => js(out + "String.fromCodePoint("@, me, *value) + ")"@,
        Node::Concat { left, right } => js(js(out + "("@, me, *left) + " + "@, me, *right) + ")"@,
        Node::Array { elems, .. } => js_list(out + "["@, me, elems) + "]"@,
        Node::Unit => out + "undefined"@,
        Node::Var { name, .. } => out + js_ident(name),
        Node::FunctionRef { name, .. } => out + js_ident(name),
        Node::Let { name, value, next, .. } => js(
            js(out + "(() => { const "@ + js_ident(name) + " = "@, me, *value) + "; return "@,
            me,
            *next,
        ) + "; })()"@,
        Node::Call { callee, args, .. } => js_list(js(out, me, *callee) + "("@, me, args) + ")"@,
        Node::Platform { name, args, .. } => js_list(
            out + "__rt["@ + debug_text(name) + "]("@,
            me,
            args,
        ) + ")"@,
        // An intrinsic inlines to a native expression.
        Node::Intrinsic { name, args, .. } => match form_of(name) {
            Some(form) => {
                let a = if args.len() > 0 {
                    js(out + form.open, me, args[0])
                } else {
                    out + form.open
                };
                let b = if args.len() > 1 {
                    js(a + form.first, me, args[1])
                } else {
                    a + form.first
                };
                let c = if args.len() > 2 {
                    js(b + form.second, me, args[2])
                } else {
                    b + form.second
                };
                c + form.close
            },
            // No such name passes the check before.
            None => out + "undefined"@,
        },
        Node::Fn { params, body, ret, .. } => {
            let head = out + "function("@ + js_params(params);
            match ret {
                Ty::Option(_) => js(head + ") { try { return "@, me, *body)
                    + "; } catch (__e) { if (__e instanceof EmelaNone) return { tag: 1, values: [] }; throw __e; } }"@,
                _ => js(head + ") { return "@, me, *body) + "; }"@,
            }
        },
        Node::Binary { op, ty, left, right } => if op == BinaryOp::Div && ty == Ty::Int {
            js(js(out + "(("@, me, *left) + " / "@, me, *right) + ") | 0)"@
        } else {
            js(js(out + "("@, me, *left) + binary_op(op), me, *right) + ")"@
        },
        Node::EnumValue { tag, payload, .. } => js_list(
            out + "{ tag: "@ + decimal(tag as nat) + ", values: ["@,
            me,
            payload,
        ) + "] }"@,
        Node::RecordValue { fields, .. } => js_list(out + "{ values: ["@, me, fields) + "] }"@,
        Node::FieldAccess { target, index, .. } => js(out, me, *target) + ".values["@ + decimal(
            index as nat,
        ) + "]"@,
        // A `match` is a function that dispatches on the tag.
        Node::Match { scrutinee, arms, .. } => js_arms(
            js(out + "(() => { const __m = "@, me, *scrutinee) + "; "@,
            me,
            "__m"@,
            arms,
        ) + "throw new Error(\"non-exhaustive match\"); })()"@,
        Node::If { cond, then, els, .. } => js(
            js(js(out + "("@, me, *cond) + " ? ("@, me, *then) + ") : ("@,
            me,
            *els,
        ) + "))"@,
        Node::Throw { value } => js(out + "(() => { throw new EmelaError("@, me, *value)
            + "); })()"@,
        // Thrown `EmelaError`s route to the arms while panics (and other
        // exceptions) propagate.
        Node::Try { body, arms, .. } => js_arms(
            js(out + "(() => { try { return "@, me, *body)
                + "; } catch (__e) { if (!(__e instanceof EmelaError)) throw __e; const __err = __e.value; "@,
            me,
            "__err"@,
            arms,
        ) + "throw __e; } })()"@,
        // A thrown error propagates as a native exception, so `?` is a no-op
        // on the value channel.
        Node::Question { value, mode, .. } => match mode {
            QuestionMode::Throws => js(out, me, *value),
            QuestionMode::Option => js(out + "(() => { const __o = "@, me, *value)
                + "; if (__o.tag === 1) throw new EmelaNone(); return __o.values[0]; })()"@,
        },
        Node::Panic { message } => js(out + "(() => { throw new EmelaPanic("@, me, *message)
            + "); })()"@,
        // A self call in tail position is an ordinary call of the function.
        Node::TailSelfCall { args, .. } => js_list(out + js_ident(me) + "("@, me, args) + ")"@,
        // Values are reclaimed by the engine, so reference counts are
        // transparent.
        Node::Retain { value } => js(out, me, *value),
        Node::Release { next, .. } => js(out, me, *next),
    }
}

/// `out` followed by the expressions of a list, separated by commas.
pub open spec fn js_list(out: Seq<char>, me: Seq<char>, s: Seq<Node>) -> Seq<char>
    decreases s, 0nat,
{
    if s.len() == 0 {
        out
    } else if s.len() == 1 {
        js(out, me, s.last())
    } else {
        js(js_list(out, me, s.drop_last()) + ", "@, me, s.last())
    }
}

/// `out` followed by the bindings of the first `k` fields of a variant.
pub open spec fn js_binds(out: Seq<char>, subject: Seq<char>, binds: Seq<Option<Bind>>) -> Seq<char>
    decreases binds.len(),
{
    if binds.len() == 0 {
        out
    } else {
        let init = js_binds(out, subject, binds.drop_last());
        match binds.last() {
            Some(b) => init + "const "@ + js_ident(b.name) + " = "@ + subject + ".values["@
                + decimal((binds.len() - 1) as nat) + "]; "@,
            None => init,
        }
    }
}

/// `out` followed by one `match` or `catch` arm that tests `subject`.
pub open spec fn js_arm(out: Seq<char>, me: Seq<char>, subject: Seq<char>, arm: ArmNode) -> Seq<char>
    decreases arm, 0nat,
{
    let bound = match arm.pattern {
        Pat::Variant { tag, bindings, .. } => js_binds(
            out + "if ("@ + subject + ".tag === "@ + decimal(tag as nat) + ") { "@,
            subject,
            bindings,
        ),
        Pat::Wildcard { binding } => match binding {
            Some(b) => out + "{ "@ + "const "@ + js_ident(b.name) + " = "@ + subject + "; "@,
            None => out + "{ "@,
        },
    };
    let guarded = match arm.guard {
        Some(guard) => js(bound + "if ("@, me, *guard) + ") "@,
        None => bound,
    };
    js(guarded + "return "@, me, *arm.body) + "; } "@
}

/// `out` followed by the arms of a list.
pub open spec fn js_arms(
    out: Seq<char>,
    me: Seq<char>,
    subject: Seq<char>,
    s: Seq<ArmNode>,
) -> Seq<char>
    decreases s, 0nat,
{
    if s.len() == 0 {
        out
    } else {
        js_arm(js_arms(out, me, subject, s.drop_last()), me, subject, s.last())
    }
}

/// `out` followed by the runtime entries of the used platform functions.
pub open spec fn runtime_entries(out: Seq<char>, used: Seq<Seq<char>>) -> Seq<char>
    decreases used.len(),
{
    if used.len() == 0 {
        out
    } else {
        let init = runtime_entries(out, used.drop_last());
        match runtime_text(used.last()) {
            Some(body) => init + "  "@ + debug_text(used.last()) + ": "@ + body + ",\n"@,
            None => init,
        }
    }
}

/// `out` followed by a function.
pub open spec fn js_function(out: Seq<char>, f: FnNode) -> Seq<char> {
    let commented = if f.effects.len() == 0 {
        out
    } else {
        out + "// uses {"@ + joined(f.effects, ", "@) + "}\n"@
    };
    let head = commented + "function "@ + js_ident(f.name) + "("@ + js_params(f.params) + ") {\n"@;
    match f.ret {
        // A function returning Option catches a propagated `None`.
        Ty::Option(_) => js(head + "  try { return "@, f.name, f.body)
            + "; } catch (__e) { if (__e instanceof EmelaNone) return { tag: 1, values: [] }; throw __e; }\n}\n\n"@,
        _ => js(head + "  return "@, f.name, f.body) + ";\n}\n\n"@,
    }
}

/// `out` followed by the functions of a program.
pub open spec fn js_functions(out: Seq<char>, p: Seq<FnNode>) -> Seq<char>
    decreases p.len(),
{
    if p.len() == 0 {
        out
    } else {
        js_function(js_functions(out, p.drop_last()), p.last())
    }
}

/// Whether the first function called `main` returns Unit.
pub open spec fn main_is_unit(p: Seq<FnNode>) -> bool
    decreases p.len(),
{
    if p.len() == 0 {
        false
    } else if p[0].name == "main"@ {
        p[0].ret == Ty::Unit
    } else {
        main_is_unit(p.drop_first())
    }
}

/// The JavaScript module of a program. A thrown error carries its value, a
/// propagated `None` is its own signal, and a panic is distinct so `catch`
/// never swallows it.
pub open spec fn js_module(p: Seq<FnNode>, used: Seq<Seq<char>>) -> Seq<char> {
    let head = Seq::<char>::empty() + "\"use strict\";\n\n"@
        + "class EmelaError { constructor(value) { this.value = value; } }\n"@
        + "class EmelaNone {}\n"@
        + "class EmelaPanic { constructor(message) { this.message = message; } }\n\n"@;
    let with_runtime = if used.len() == 0 {
        head
    } else {
        runtime_entries(head + "const __rt = {\n"@, used) + "};\n\n"@
    };
    let started = js_functions(with_runtime, p) + "try {\n"@
        + "  const __emela_result = main();\n"@;
    let logged = if main_is_unit(p) {
        started
    } else {
        started + "  if (__emela_result !== undefined) console.log(__emela_result);\n"@
    };
    logged + "} catch (__e) {\n"@
        + "  if (__e instanceof EmelaPanic) { console.error(\"panic: \" + __e.message); process.exit(1); }\n"@
        + "  throw __e;\n"@ + "}\n"@
}

fn emit_list(exprs: &Vec<IrExpr>, me: &str, out: &mut String)
    ensures
        final(out)@ == js_list(old(out)@, me@, nodes(exprs@)),
    decreases exprs@, 0nat,
{
    let ghost all = nodes(exprs@);
    let mut i: usize = 0;
    assert(all.take(0).len() == 0);
    while i < exprs.len()
        invariant
            i <= exprs.len(),
            all == nodes(exprs@),
            out@ == js_list(old(out)@, me@, all.take(i as int)),
        decreases exprs.len() - i,
    {
        if i > 0 {
            out.push_str(", ");
        }
        emit_expr(&exprs[i], me, out);
        proof {
            assert(all.take(i + 1).drop_last() =~= all.take(i as int));
            assert(all.take(i + 1).last() == exprs@[i as int]@);
        }
        i += 1;
    }
    assert(all.take(all.len() as int) =~= all);
}

fn emit_binds(bindings: &Vec<Option<(String, Type)>>, subject: &str, out: &mut String)
    ensures
        final(out)@ == js_binds(old(out)@, subject@, opt_binds(bindings@)),
{
    let ghost all = opt_binds(bindings@);
    let mut i: usize = 0;
    assert(all.take(0).len() == 0);
    while i < bindings.len()
        invariant
            i <= bindings.len(),
            all == opt_binds(bindings@),
            out@ == js_binds(old(out)@, subject@, all.take(i as int)),
        decreases bindings.len() - i,
    {
        proof {
            assert(all.take(i + 1).drop_last() =~= all.take(i as int));
            assert(all.take(i + 1).last() == opt_bind(bindings@[i as int]));
        }
        if let Some((name, _)) = &bindings[i] {
            out.push_str("const ");
            let ident = js_name(name.as_str());
            out.push_str(ident.as_str());
            out.push_str(" = ");
            out.push_str(subject);
            out.push_str(".values[");
            push_decimal(out, i as u64);
            out.push_str("]; ");
        }
        i += 1;
    }
    assert(all.take(all.len() as int) =~= all);
}

/// Emits one `match` or `catch` arm testing `subject`.
fn emit_arm(subject: &str, arm: &IrArm, me: &str, out: &mut String)
    ensures
        final(out)@ == js_arm(old(out)@, me@, subject@, arm@),
    decreases arm, 0nat,
{
    match &arm.pattern {
        IrPattern::Variant { tag, bindings, .. } => {
            out.push_str("if (");
            out.push_str(subject);
            out.push_str(".tag === ");
            push_decimal(out, *tag as u64);
            out.push_str(") { ");
            emit_binds(bindings, subject, out);
        },
        IrPattern::Wildcard { binding } => {
            out.push_str("{ ");
            if let Some((name, _)) = binding {
                out.push_str("const ");
                let ident = js_name(name.as_str());
                out.push_str(ident.as_str());
                out.push_str(" = ");
                out.push_str(subject);
                out.push_str("; ");
            }
        },
    }
    if let Some(guard) = &arm.guard {
        out.push_str("if (");
        emit_expr(guard, me, out);
        out.push_str(") ");
    }
    out.push_str("return ");
    emit_expr(&arm.body, me, out);
    out.push_str("; } ");
}

fn emit_arms(subject: &str, arms: &Vec<IrArm>, me: &str, out: &mut String)
    ensures
        final(out)@ == js_arms(old(out)@, me@, subject@, arm_nodes(arms@)),
    decreases arms@, 0nat,
{
    let ghost all = arm_nodes(arms@);
    let mut i: usize = 0;
    assert(all.take(0).len() == 0);
    while i < arms.len()
        invariant
            i <= arms.len(),
            all == arm_nodes(arms@),
            out@ == js_arms(old(out)@, me@, subject@, all.take(i as int)),
        decreases arms.len() - i,
    {
        emit_arm(subject, &arms[i], me, out);
        proof {
            assert(all.take(i + 1).drop_last() =~= all.take(i as int));
            assert(all.take(i + 1).last() == arms@[i as int]@);
        }
        i += 1;
    }
    assert(all.take(all.len() as int) =~= all);
}

/// Appends an expression as JavaScript.
pub fn emit_expr(expr: &IrExpr, me: &str, out: &mut String)
    ensures
        final(out)@ == js(old(out)@, me@, expr@),
    decreases expr, 2nat,
{
    if matches!(
        expr,
        IrExpr::Int(_)
            | IrExpr::Float(_)
            | IrExpr::Bool(_)
            | IrExpr::String(_)
            | IrExpr::Char(_)
            | IrExpr::Unit
            | IrExpr::Var { .. }
            | IrExpr::FunctionRef { .. }
    ) {
        emit_atom(expr, me, out)
    } else if matches!(
        expr,
        IrExpr::Array { .. }
            | IrExpr::Call { .. }
            | IrExpr::Platform { .. }
            | IrExpr::EnumValue { .. }
            | IrExpr::RecordValue { .. }
            | IrExpr::TailSelfCall { .. }
            | IrExpr::Intrinsic { .. }
    ) {
        emit_operation(expr, me, out)
    } else if matches!(
        expr,
        IrExpr::CharFromCode(_)
            | IrExpr::StringFromChar(_)
            | IrExpr::Concat { .. }
            | IrExpr::Binary { .. }
            | IrExpr::FieldAccess { .. }
            | IrExpr::Question { .. }
            | IrExpr::Retain { .. }
            | IrExpr::Release { .. }
    ) {
        emit_value(expr, me, out)
    } else {
        emit_control(expr, me, out)
    }
}

/// A literal or a name.
fn emit_atom(expr: &IrExpr, me: &str, out: &mut String)
    requires
        expr is Int || expr is Float || expr is Bool || expr is String || expr is Char
            || expr is Unit || expr is Var || expr is FunctionRef,
    ensures
        final(out)@ == js(old(out)@, me@, expr@),
{
    match expr {
        IrExpr::Int(value) => push_decimal_int(out, *value),
        IrExpr::Float(value) => out.push_str(value.as_str()),
        IrExpr::Bool(value) => push_bool(out, *value),
        IrExpr::String(value) => {
            let quoted = debug_string(value.as_str());
            out.push_str(quoted.as_str());
        },
        IrExpr::Char(value) => push_decimal(out, *value as u64),
        IrExpr::Unit => out.push_str("undefined"),
        IrExpr::Var { name, .. } => {
            let ident = js_name(name.as_str());
            out.push_str(ident.as_str());
        },
        IrExpr::FunctionRef { name, .. } => {
            let ident = js_name(name.as_str());
            out.push_str(ident.as_str());
        },
        _ => {},
    }
}

/// A call or a constructor.
fn emit_operation(expr: &IrExpr, me: &str, out: &mut String)
    requires
        expr is Array || expr is Call || expr is Platform || expr is EnumValue
            || expr is RecordValue || expr is TailSelfCall || expr is Intrinsic,
    ensures
        final(out)@ == js(old(out)@, me@, expr@),
    decreases expr, 1nat,
{
    match expr {
        IrExpr::Array { elems, .. } => {
            out.push_str("[");
            emit_list(elems, me, out);
            out.push_str("]");
        },
        IrExpr::Call { callee, args, .. } => {
            emit_expr(callee, me, out);
            out.push_str("(");
            emit_list(args, me, out);
            out.push_str(")");
        },
        IrExpr::Platform { name, args, .. } => {
            out.push_str("__rt[");
            let quoted = debug_string(name.as_str());
            out.push_str(quoted.as_str());
            out.push_str("](");
            emit_list(args, me, out);
            out.push_str(")");
        },
        IrExpr::EnumValue { tag, payload, .. } => {
            out.push_str("{ tag: ");
            push_decimal(out, *tag as u64);
            out.push_str(", values: [");
            emit_list(payload, me, out);
            out.push_str("] }");
        },
        IrExpr::RecordValue { fields, .. } => {
            out.push_str("{ values: [");
            emit_list(fields, me, out);
            out.push_str("] }");
        },
        IrExpr::TailSelfCall { args, .. } => {
            let ident = js_name(me);
            out.push_str(ident.as_str());
            out.push_str("(");
            emit_list(args, me, out);
            out.push_str(")");
        },
        IrExpr::Intrinsic { name, args, .. } => {
            intrinsic_js(name.as_str(), args, me, out);
            assert(expr@ is Intrinsic);
        },
        _ => {},
    }
}

/// The expression an intrinsic inlines to.
fn intrinsic_js(name: &str, args: &Vec<IrExpr>, me: &str, out: &mut String)
    ensures
        forall|ret: Ty|
            final(out)@ == #[trigger] js(
                old(out)@,
                me@,
                Node::Intrinsic { name: name@, args: nodes(args@), ret },
            ),
    decreases args@, 0nat,
{
    proof {
        assert(nodes(args@).len() == args@.len());
        if args@.len() > 0 {
            assert(nodes(args@)[0] == args@[0]@);
        }
        if args@.len() > 1 {
            assert(nodes(args@)[1] == args@[1]@);
        }
        if args@.len() > 2 {
            assert(nodes(args@)[2] == args@[2]@);
        }
    }
    if let Some((open, first, second, close)) = intrinsic_form(name) {
        out.push_str(open);
        if args.len() > 0 {
            emit_expr(&args[0], me, out);
        }
        out.push_str(first);
        if args.len() > 1 {
            emit_expr(&args[1], me, out);
        }
        out.push_str(second);
        if args.len() > 2 {
            emit_expr(&args[2], me, out);
        }
        out.push_str(close);
    } else {
        out.push_str("undefined");
    }
}

/// A node over fixed operands.
fn emit_value(expr: &IrExpr, me: &str, out: &mut String)
    requires
        expr is CharFromCode || expr is StringFromChar || expr is Concat || expr is Binary
            || expr is FieldAccess || expr is Question || expr is Retain || expr is Release,
    ensures
        final(out)@ == js(old(out)@, me@, expr@),
    decreases expr, 1nat,
{
    match expr {
        IrExpr::CharFromCode(value) => emit_expr(value, me, out),
        IrExpr::StringFromChar(value) => {
            out.push_str("String.fromCodePoint(");
            emit_expr(value, me, out);
            out.push_str(")");
        },
        IrExpr::Concat { left, right } => {
            out.push_str("(");
            emit_expr(left, me, out);
            out.push_str(" + ");
            emit_expr(right, me, out);
            out.push_str(")");
        },
        IrExpr::Binary { op, ty, left, right } => {
            if *op == BinaryOp::Div && matches!(ty, Type::Int) {
                out.push_str("((");
                emit_expr(left, me, out);
                out.push_str(" / ");
                emit_expr(right, me, out);
                out.push_str(") | 0)");
            } else {
                out.push_str("(");
                emit_expr(left, me, out);
                out.push_str(binary_operator(*op));
                emit_expr(right, me, out);
                out.push_str(")");
            }
        },
        IrExpr::FieldAccess { target, index, .. } => {
            emit_expr(target, me, out);
            out.push_str(".values[");
            push_decimal(out, *index as u64);
            out.push_str("]");
        },
        IrExpr::Question { value, mode, .. } => match mode {
            QuestionMode::Throws => emit_expr(value, me, out),
            QuestionMode::Option => {
                out.push_str("(() => { const __o = ");
                emit_expr(value, me, out);
                out.push_str(
                    "; if (__o.tag === 1) throw new EmelaNone(); return __o.values[0]; })()",
                );
            },
        },
        IrExpr::Retain { value } => emit_expr(value, me, out),
        IrExpr::Release { next, .. } => emit_expr(next, me, out),
        _ => {},
    }
}

/// A binding, a branch or a jump.
fn emit_control(expr: &IrExpr, me: &str, out: &mut String)
    requires
        expr is Let || expr is Fn || expr is Match || expr is If || expr is Throw || expr is Try
            || expr is Panic,
    ensures
        final(out)@ == js(old(out)@, me@, expr@),
    decreases expr, 1nat,
{
    match expr {
        IrExpr::Let { name, value, next, .. } => {
            out.push_str("(() => { const ");
            let ident = js_name(name.as_str());
            out.push_str(ident.as_str());
            out.push_str(" = ");
            emit_expr(value, me, out);
            out.push_str("; return ");
            emit_expr(next, me, out);
            out.push_str("; })()");
        },
        IrExpr::Fn { params, body, ret, .. } => {
            out.push_str("function(");
            let list = params_text(params);
            out.push_str(list.as_str());
            if matches!(ret, Type::Option(_)) {
                out.push_str(") { try { return ");
                emit_expr(body, me, out);
                out.push_str(
                    "; } catch (__e) { if (__e instanceof EmelaNone) return { tag: 1, values: [] }; throw __e; } }",
                );
            } else {
                out.push_str(") { return ");
                emit_expr(body, me, out);
                out.push_str("; }");
            }
        },
        IrExpr::Match { scrutinee, arms, .. } => {
            out.push_str("(() => { const __m = ");
            emit_expr(scrutinee, me, out);
            out.push_str("; ");
            emit_arms("__m", arms, me, out);
            out.push_str("throw new Error(\"non-exhaustive match\"); })()");
        },
        IrExpr::If { cond, then, els, .. } => {
            out.push_str("(");
            emit_expr(cond, me, out);
            out.push_str(" ? (");
            emit_expr(then, me, out);
            out.push_str(") : (");
            emit_expr(els, me, out);
            out.push_str("))");
        },
        IrExpr::Throw { value } => {
            out.push_str("(() => { throw new EmelaError(");
            emit_expr(value, me, out);
            out.push_str("); })()");
        },
        IrExpr::Try { body, arms, .. } => {
            out.push_str("(() => { try { return ");
            emit_expr(body, me, out);
            out.push_str(
                "; } catch (__e) { if (!(__e instanceof EmelaError)) throw __e; const __err = __e.value; ",
            );
            emit_arms("__err", arms, me, out);
            out.push_str("throw __e; } })()");
        },
        IrExpr::Panic { message } => {
            out.push_str("(() => { throw new EmelaPanic(");
            emit_expr(message, me, out);
            out.push_str("); })()");
        },
        _ => {},
    }
}

fn emit_runtime(used: &Vec<String>, out: &mut String)
    ensures
        final(out)@ == runtime_entries(old(out)@, texts(used@)),
{
    let ghost all = texts(used@);
    let mut i: usize = 0;
    assert(all.take(0).len() == 0);
    while i < used.len()
        invariant
            i <= used.len(),
            all == texts(used@),
            out@ == runtime_entries(old(out)@, all.take(i as int)),
        decreases used.len() - i,
    {
        proof {
            assert(all.take(i + 1).drop_last() =~= all.take(i as int));
            assert(all.take(i + 1).last() == used@[i as int]@);
        }
        if let Some(body) = runtime_impl(used[i].as_str()) {
            out.push_str("  ");
            let quoted = debug_string(used[i].as_str());
            out.push_str(quoted.as_str());
            out.push_str(": ");
            out.push_str(body);
            out.push_str(",\n");
        }
        i += 1;
    }
    assert(all.take(all.len() as int) =~= all);
}

fn emit_function(function: &IrFunction, out: &mut String)
    ensures
        final(out)@ == js_function(old(out)@, function@),
{
    assert(function@.effects.len() == function.effects.effects@.len());
    if function.effects.effects.len() > 0 {
        out.push_str("// uses {");
        let effects = join(&function.effects.effects, ", ");
        out.push_str(effects.as_str());
        out.push_str("}\n");
    }
    out.push_str("function ");
    let ident = js_name(function.name.as_str());
    out.push_str(ident.as_str());
    out.push_str("(");
    let list = params_text(&function.params);
    out.push_str(list.as_str());
    out.push_str(") {\n");
    if matches!(function.ret, Type::Option(_)) {
        out.push_str("  try { return ");
        emit_expr(&function.body, function.name.as_str(), out);
        out.push_str(
            "; } catch (__e) { if (__e instanceof EmelaNone) return { tag: 1, values: [] }; throw __e; }\n}\n\n",
        );
    } else {
        out.push_str("  return ");
        emit_expr(&function.body, function.name.as_str(), out);
        out.push_str(";\n}\n\n");
    }
}

fn unit_main(program: &IrProgram) -> (r: bool)
    ensures
        r == main_is_unit(program@),
{
    let ghost p = program@;
    let mut i: usize = 0;
    assert(p.skip(0) =~= p);
    while i < program.functions.len()
        invariant
            i <= program.functions.len(),
            p == program@,
            main_is_unit(p) == main_is_unit(p.skip(i as int)),
        decreases program.functions.len() - i,
    {
        proof {
            assert(p.skip(i as int)[0] == program.functions@[i as int]@);
            assert(p.skip(i as int).drop_first() =~= p.skip(i + 1));
        }
        if same(program.functions[i].name.as_str(), "main") {
            return matches!(program.functions[i].ret, Type::Unit);
        }
        i += 1;
    }
    false
}

fn emit(program: &IrProgram, used: &Vec<String>) -> (r: String)
    ensures
        r@ == js_module(program@, texts(used@)),
{
    let mut out = String::new();
    out.push_str("\"use strict\";\n\n");
    out.push_str("class EmelaError { constructor(value) { this.value = value; } }\n");
    out.push_str("class EmelaNone {}\n");
    out.push_str("class EmelaPanic { constructor(message) { this.message = message; } }\n\n");
    assert(texts(used@).len() == used@.len());
    if used.len() > 0 {
        // Bundled default runtime: the backend supplies the platform bodies.
        out.push_str("const __rt = {\n");
        emit_runtime(used, &mut out);
        out.push_str("};\n\n");
    }
    let ghost before = out@;
    let ghost p = program@;
    let mut i: usize = 0;
    assert(p.take(0).len() == 0);
    while i < program.functions.len()
        invariant
            i <= program.functions.len(),
            p == program@,
            out@ == js_functions(before, p.take(i as int)),
        decreases program.functions.len() - i,
    {
        emit_function(&program.functions[i], &mut out);
        proof {
            assert(p.take(i + 1).drop_last() =~= p.take(i as int));
            assert(p.take(i + 1).last() == program.functions@[i as int]@);
        }
        i += 1;
    }
    assert(p.take(p.len() as int) =~= p);
    out.push_str("try {\n");
    out.push_str("  const __emela_result = main();\n");
    if !unit_main(program) {
        out.push_str("  if (__emela_result !== undefined) console.log(__emela_result);\n");
    }
    out.push_str("} catch (__e) {\n");
    out.push_str(
        "  if (__e instanceof EmelaPanic) { console.error(\"panic: \" + __e.message); process.exit(1); }\n",
    );
    out.push_str("  throw __e;\n");
    out.push_str("}\n");
    out
}

/// The platform functions a program uses, in first-occurrence order.
pub open spec fn used_platform(p: Seq<FnNode>) -> Seq<Seq<char>> {
    first_occurrences(platform_names(preorder_program(p)))
}

/// The intrinsics a program uses, in first-occurrence order.
pub open spec fn used_intrinsic(p: Seq<FnNode>) -> Seq<Seq<char>> {
    first_occurrences(intrinsic_names(preorder_program(p)))
}

/// The first platform function of `used` that this backend does not provide.
pub open spec fn first_missing_platform(used: Seq<Seq<char>>) -> Option<Seq<char>>
    decreases used.len(),
{
    if used.len() == 0 {
        None
    } else if runtime_text(used[0]) is None {
        Some(used[0])
    } else {
        first_missing_platform(used.drop_first())
    }
}

/// The first name of `used` that is no intrinsic: this backend inlines every
/// intrinsic of the interface, so coverage is exactly membership.
pub open spec fn first_missing_intrinsic(used: Seq<Seq<char>>) -> Option<Seq<char>>
    decreases used.len(),
{
    if used.len() == 0 {
        None
    } else if find_entry(interface(), used[0]) is None {
        Some(used[0])
    } else {
        first_missing_intrinsic(used.drop_first())
    }
}

/// Why the backend rejects a program, if it does: the first platform function
/// that is not provided, or the first name that is no intrinsic.
pub open spec fn js_rejection(p: Seq<FnNode>) -> Option<Seq<char>> {
    match first_missing_platform(used_platform(p)) {
        Some(name) => Some(
            "backend `js-node` does not provide platform function `"@ + name + "`"@,
        ),
        None => match first_missing_intrinsic(used_intrinsic(p)) {
            Some(name) => Some("backend `js-node` does not provide intrinsic `"@ + name + "`"@),
            None => None,
        },
    }
}

fn missing_platform<'a>(used: &'a Vec<String>) -> (r: Option<&'a String>)
    ensures
        match r {
            Some(name) => first_missing_platform(texts(used@)) == Some(name@),
            None => first_missing_platform(texts(used@)) is None,
        },
{
    let ghost all = texts(used@);
    let mut i: usize = 0;
    assert(all.skip(0) =~= all);
    while i < used.len()
        invariant
            i <= used.len(),
            all == texts(used@),
            first_missing_platform(all) == first_missing_platform(all.skip(i as int)),
        decreases used.len() - i,
    {
        proof {
            assert(all.skip(i as int)[0] == used@[i as int]@);
            assert(all.skip(i as int).drop_first() =~= all.skip(i + 1));
        }
        if runtime_impl(used[i].as_str()).is_none() {
            return Some(&used[i]);
        }
        i += 1;
    }
    None
}

fn missing_intrinsic<'a>(used: &'a Vec<String>) -> (r: Option<&'a String>)
    ensures
        match r {
            Some(name) => first_missing_intrinsic(texts(used@)) == Some(name@),
            None => first_missing_intrinsic(texts(used@)) is None,
        },
{
    let ghost all = texts(used@);
    let mut i: usize = 0;
    assert(all.skip(0) =~= all);
    while i < used.len()
        invariant
            i <= used.len(),
            all == texts(used@),
            first_missing_intrinsic(all) == first_missing_intrinsic(all.skip(i as int)),
        decreases used.len() - i,
    {
        proof {
            assert(all.skip(i as int)[0] == used@[i as int]@);
            assert(all.skip(i as int).drop_first() =~= all.skip(i + 1));
        }
        if !is_intrinsic(used[i].as_str()) {
            return Some(&used[i]);
        }
        i += 1;
    }
    None
}

fn rejection(head: &str, name: &str) -> (r: BackendError)
    ensures
        r.message@ == head@ + name@ + "`"@,
        r.diagnostics@.len() == 0,
{
    let mut message = String::new();
    message.push_str(head);
    message.push_str(name);
    message.push_str("`");
    assert(message@ =~= head@ + name@ + "`"@);
    BackendError::new(message)
}

impl Backend for JsBackend {
    fn name(&self) -> (r: &str)
        ensures
            r@ == "js-node"@,
    {
        "js-node"
    }

    fn tier(&self) -> (r: Tier)
        ensures
            r == Tier::Tier2,
    {
        Tier::Tier2
    }

    /// Compiles a program to one JavaScript module.
    fn compile(&self, ir: &IrProgram, _options: &BackendOptions) -> (r: Result<
        Artifact,
        BackendError,
    >)
        ensures
            match r {
                Ok(artifact) => {
                    &&& js_rejection(ir@) is None
                    &&& artifact.kind is JsSource
                    &&& artifact.bytes@ == encode_utf8(js_module(ir@, used_platform(ir@)))
                },
                Err(e) => js_rejection(ir@) == Some(e.message@) && e.diagnostics@.len() == 0,
            },
    {
        let used = used_platform_fns(ir);
        if let Some(name) = missing_platform(&used) {
            return Err(
                rejection(
                    "backend `js-node` does not provide platform function `",
                    name.as_str(),
                ),
            );
        }
        let intrinsics = used_intrinsics(ir);
        if let Some(name) = missing_intrinsic(&intrinsics) {
            return Err(
                rejection("backend `js-node` does not provide intrinsic `", name.as_str()),
            );
        }
        let text = emit(ir, &used);
        Ok(Artifact::text(ArtifactKind::JsSource, text))
    }
}

} // verus!
