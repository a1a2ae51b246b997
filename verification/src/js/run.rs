//! The part of JavaScript that modules are made of: its expressions and
//! statements, how they are written, and what they do.

use vstd::prelude::*;
use vstd::utf8::encode_utf8;

use crate::ir_text::bool_text;
use crate::meaning::{
    done, is_scalar, maybe, places, quotient, remainder, slice, stuck, word, wrapped, Event,
    FloatOp, Model, Outcome, Run, Runs, Value,
};
use crate::strings::{debug_text, decimal, decimal_int};

verus! {

/// An infix operator.
pub enum Infix {
    Plus,
    Minus,
    Times,
    Over,
    Modulo,
    And,
    Or,
    Xor,
    Left,
    Right,
    RightUnsigned,
    Same,
    NotSame,
    Less,
    LessOrSame,
    Greater,
    GreaterOrSame,
}

/// An expression of JavaScript's own library.
pub enum Native {
    /// `Math.sqrt(a)`.
    Root,
    /// `Array.from(a).length`.
    CountPoints,
    /// `Array.from(a)[b].codePointAt(0)`.
    PointAt,
    /// `Array.from(a).slice(Math.max(0, b), Math.max(0, c)).join("")`.
    SliceText,
    /// `(a)`.
    Parens,
    /// `String.fromCodePoint(a)`.
    FromPoint,
    /// `(a).length`.
    Length,
    /// `(a)[b]`.
    Index,
    /// `(a).slice(Math.max(0, b), Math.max(0, c))`.
    SliceBytes,
    /// `Uint8Array.from([...a, ...b])`.
    JoinBytes,
    /// `(Buffer.compare(a, b) === 0)`.
    SameBytes,
    /// `new TextEncoder().encode(a)`.
    Encode,
    /// `new TextDecoder("utf-8", { ignoreBOM: true }).decode(a)`.
    Decode,
    /// `[...a, b]`.
    Push,
}

/// An expression.
pub enum Js {
    Number(int),
    Float(Seq<char>),
    Bool(bool),
    Text(Seq<char>),
    Undefined,
    Ident(Seq<char>),
    Infix(Infix, Box<Js>, Box<Js>),
    Cond(Box<Js>, Box<Js>, Box<Js>),
    List(Seq<Js>),
    /// An object with a list of values and, for a variant, a tag.
    Object(Option<nat>, Seq<Js>),
    /// One of the values of an object.
    Field(Box<Js>, nat),
    Call(Box<Js>, Seq<Js>),
    /// A call of a platform function.
    Host(Seq<char>, Seq<Js>),
    Native(Native, Seq<Js>),
    /// A function that is called where it stands.
    Block(Seq<Stm>),
}

/// A statement.
pub enum Stm {
    Const(Seq<char>, Js),
    Return(Js),
    /// Returns the second where the first is true.
    ReturnIf(Js, Js),
    /// Does the statements where the tag of a variable is the given one.
    IfTag(Seq<char>, nat, Seq<Stm>),
    Braces(Seq<Stm>),
    ThrowError(Js),
    ThrowPanic(Js),
    /// Throws where the tag of a variable is the given one.
    ThrowNoneIf(Seq<char>, nat),
    ThrowUnmatched,
    /// Returns the first; a thrown error goes to the statements.
    Catch(Js, Seq<Stm>),
    /// Returns the value, or `None` where that is propagated.
    CatchNone(Js),
}

/// How an infix operator is written.
pub open spec fn infix_text(op: Infix) -> Seq<char> {
    match op {
        Infix::Plus => " + "@,
        Infix::Minus => " - "@,
        Infix::Times => " * "@,
        Infix::Over => " / "@,
        Infix::Modulo => " % "@,
        Infix::And => " & "@,
        Infix::Or => " | "@,
        Infix::Xor => " ^ "@,
        Infix::Left => " << "@,
        Infix::Right => " >> "@,
        Infix::RightUnsigned => " >>> "@,
        Infix::Same => " === "@,
        Infix::NotSame => " !== "@,
        Infix::Less => " < "@,
        Infix::LessOrSame => " <= "@,
        Infix::Greater => " > "@,
        Infix::GreaterOrSame => " >= "@,
    }
}

/// How an expression of one argument is written, around it.
pub open spec fn native_one(f: Native, a: Seq<char>) -> Seq<char> {
    match f {
        Native::Root => "Math.sqrt("@ + a + ")"@,
        Native::CountPoints => "Array.from("@ + a + ").length"@,
        Native::FromPoint => "String.fromCodePoint("@ + a + ")"@,
        Native::Length => "("@ + a + ").length"@,
        Native::Encode => "new TextEncoder().encode("@ + a + ")"@,
        Native::Decode => "new TextDecoder(\"utf-8\", { ignoreBOM: true }).decode("@ + a + ")"@,
        _ => "("@ + a + ")"@,
    }
}

/// How an expression of two arguments is written, around them.
pub open spec fn native_two(f: Native, a: Seq<char>, b: Seq<char>) -> Seq<char> {
    match f {
        Native::PointAt => "Array.from("@ + a + ")["@ + b + "].codePointAt(0)"@,
        Native::JoinBytes => "Uint8Array.from([..."@ + a + ", ..."@ + b + "])"@,
        Native::SameBytes => "(Buffer.compare("@ + a + ", "@ + b + ") === 0)"@,
        Native::Push => "[..."@ + a + ", "@ + b + "]"@,
        _ => "("@ + a + ")["@ + b + "]"@,
    }
}

/// How an expression of three arguments is written, around them.
pub open spec fn native_three(f: Native, a: Seq<char>, b: Seq<char>, c: Seq<char>) -> Seq<char> {
    match f {
        Native::SliceText => "Array.from("@ + a + ").slice(Math.max(0, "@ + b + "), Math.max(0, "@
            + c + ")).join(\"\")"@,
        _ => "("@ + a + ").slice(Math.max(0, "@ + b + "), Math.max(0, "@ + c + "))"@,
    }
}

/// How an expression is written.
pub open spec fn written(x: Js) -> Seq<char>
    decreases x, 0nat,
{
    match x {
        Js::Number(n) => decimal_int(n),
        Js::Float(text) => text,
        Js::Bool(b) => bool_text(b),
        Js::Text(s) => debug_text(s),
        Js::Undefined => "undefined"@,
        Js::Ident(name) => name,
        Js::Infix(op, a, b) => "("@ + written(*a) + infix_text(op) + written(*b) + ")"@,
        Js::Cond(c, a, b) => "("@ + written(*c) + " ? ("@ + written(*a) + ") : ("@ + written(*b)
            + "))"@,
        Js::List(s) => "["@ + written_list(s) + "]"@,
        Js::Object(tag, s) => match tag {
            Some(tag) => "{ tag: "@ + decimal(tag) + ", values: ["@ + written_list(s) + "] }"@,
            None => "{ values: ["@ + written_list(s) + "] }"@,
        },
        Js::Field(a, i) => written(*a) + ".values["@ + decimal(i) + "]"@,
        Js::Call(f, s) => written(*f) + "("@ + written_list(s) + ")"@,
        Js::Host(name, s) => "__rt["@ + debug_text(name) + "]("@ + written_list(s) + ")"@,
        Js::Native(f, s) => if s.len() == 1 {
            native_one(f, written(s[0]))
        } else if s.len() == 2 {
            native_two(f, written(s[0]), written(s[1]))
        } else if s.len() == 3 {
            native_three(f, written(s[0]), written(s[1]), written(s[2]))
        } else {
            "undefined"@
        },
        Js::Block(s) => "(() => { "@ + written_stms(s) + "})()"@,
    }
}

/// How the expressions of a list are written.
pub open spec fn written_list(s: Seq<Js>) -> Seq<char>
    decreases s, 0nat,
{
    if s.len() == 0 {
        Seq::empty()
    } else if s.len() == 1 {
        written(s.last())
    } else {
        written_list(s.drop_last()) + ", "@ + written(s.last())
    }
}

/// How a statement is written.
pub open spec fn written_stm(s: Stm) -> Seq<char>
    decreases s, 0nat,
{
    match s {
        Stm::Const(name, a) => "const "@ + name + " = "@ + written(a) + "; "@,
        Stm::Return(a) => "return "@ + written(a) + "; "@,
        Stm::ReturnIf(c, a) => "if ("@ + written(c) + ") return "@ + written(a) + "; "@,
        Stm::IfTag(name, tag, s) => "if ("@ + name + ".tag === "@ + decimal(tag) + ") { "@
            + written_stms(s) + "} "@,
        Stm::Braces(s) => "{ "@ + written_stms(s) + "} "@,
        Stm::ThrowError(a) => "throw new EmelaError("@ + written(a) + "); "@,
        Stm::ThrowPanic(a) => "throw new EmelaPanic("@ + written(a) + "); "@,
        Stm::ThrowNoneIf(name, tag) => "if ("@ + name + ".tag === "@ + decimal(tag)
            + ") throw new EmelaNone(); "@,
        Stm::ThrowUnmatched => "throw new Error(\"non-exhaustive match\"); "@,
        Stm::Catch(a, s) => "try { return "@ + written(a)
            + "; } catch (__e) { if (!(__e instanceof EmelaError)) throw __e; const __err = __e.value; "@
            + written_stms(s) + "throw __e; } "@,
        Stm::CatchNone(a) => "try { return "@ + written(a)
            + "; } catch (__e) { if (__e instanceof EmelaNone) return { tag: 1, values: [] }; throw __e; }"@,
    }
}

/// How statements are written.
pub open spec fn written_stms(s: Seq<Stm>) -> Seq<char>
    decreases s, 0nat,
{
    if s.len() == 0 {
        Seq::empty()
    } else {
        written_stms(s.drop_last()) + written_stm(s.last())
    }
}

/// The variables in scope. One that is declared, and has no value yet, hides what
/// it shadows.
pub type Scope = Map<Seq<char>, Option<Value>>;

/// What an infix operator makes of two values.
pub open spec fn infix(m: Model, op: Infix, a: Value, b: Value) -> Option<Value> {
    match (a, b) {
        (Value::Int(x), Value::Int(y)) => match op {
            Infix::Plus => Some(Value::Int(x + y)),
            Infix::Minus => Some(Value::Int(x - y)),
            Infix::Times => Some(Value::Int(x * y)),
            Infix::Over => if y == 0 {
                None
            } else {
                Some(Value::Ratio(x, y))
            },
            Infix::Modulo => if y == 0 {
                None
            } else {
                Some(Value::Int(remainder(x, y)))
            },
            Infix::And => Some(Value::Int(wrapped((word(x) & word(y)) as int))),
            Infix::Or => Some(Value::Int(wrapped((word(x) | word(y)) as int))),
            Infix::Xor => Some(Value::Int(wrapped((word(x) ^ word(y)) as int))),
            Infix::Left => Some(Value::Int(wrapped((word(x) << places(y)) as int))),
            Infix::Right => Some(Value::Int(((wrapped(x) as i32) >> places(y)) as int)),
            Infix::RightUnsigned => Some(Value::Int((word(x) >> places(y)) as int)),
            Infix::Same => Some(Value::Bool(x == y)),
            Infix::NotSame => Some(Value::Bool(x != y)),
            Infix::Less => Some(Value::Bool(x < y)),
            Infix::LessOrSame => Some(Value::Bool(x <= y)),
            Infix::Greater => Some(Value::Bool(x > y)),
            Infix::GreaterOrSame => Some(Value::Bool(x >= y)),
        },
        // The bits of a quotient are those of its whole part.
        (Value::Ratio(x, y), Value::Int(z)) => match op {
            Infix::Or => Some(Value::Int(wrapped((word(quotient(x, y)) | word(z)) as int))),
            _ => None,
        },
        (Value::Float(x), Value::Float(y)) => match op {
            Infix::Plus => Some(Value::Float((m.float_op)(FloatOp::Sum, x, y))),
            Infix::Minus => Some(Value::Float((m.float_op)(FloatOp::Difference, x, y))),
            Infix::Times => Some(Value::Float((m.float_op)(FloatOp::Product, x, y))),
            Infix::Over => Some(Value::Float((m.float_op)(FloatOp::Quotient, x, y))),
            Infix::Same => Some(Value::Bool((m.float_eq)(x, y))),
            Infix::Less => Some(Value::Bool((m.float_lt)(x, y))),
            _ => None,
        },
        (Value::Text(s), Value::Text(t)) => match op {
            Infix::Plus => Some(Value::Text(s + t)),
            Infix::Same => Some(Value::Bool(s == t)),
            Infix::NotSame => Some(Value::Bool(s != t)),
            Infix::Less => Some(Value::Bool((m.text_lt)(s, t))),
            _ => None,
        },
        _ => None,
    }
}

/// What an expression of one argument makes of it.
pub open spec fn native1(m: Model, f: Native, a: Value) -> Option<Value> {
    match (f, a) {
        (Native::Parens, a) => Some(a),
        (Native::Root, Value::Float(x)) => Some(Value::Float((m.float_op)(FloatOp::Root, x, x))),
        (Native::CountPoints, Value::Text(s)) => Some(Value::Int(s.len() as int)),
        (Native::FromPoint, Value::Int(n)) => if is_scalar(n) {
            Some(Value::Text(seq![n as char]))
        } else {
            None
        },
        (Native::Length, Value::Bytes(s)) => Some(Value::Int(s.len() as int)),
        (Native::Length, Value::Array(s)) => Some(Value::Int(s.len() as int)),
        (Native::Encode, Value::Text(s)) => Some(Value::Bytes(encode_utf8(s))),
        (Native::Decode, Value::Bytes(s)) => Some(Value::Text((m.decoded)(s))),
        _ => None,
    }
}

/// What an expression of two arguments makes of them.
pub open spec fn native2(f: Native, a: Value, b: Value) -> Option<Value> {
    match (f, a, b) {
        (Native::PointAt, Value::Text(s), Value::Int(i)) => if 0 <= i < s.len() {
            Some(Value::Int(s[i] as int))
        } else {
            None
        },
        (Native::Index, Value::Bytes(s), Value::Int(i)) => if 0 <= i < s.len() {
            Some(Value::Int(s[i] as int))
        } else {
            None
        },
        (Native::Index, Value::Array(s), Value::Int(i)) => if 0 <= i < s.len() {
            Some(s[i])
        } else {
            None
        },
        (Native::JoinBytes, Value::Bytes(s), Value::Bytes(t)) => Some(Value::Bytes(s + t)),
        (Native::SameBytes, Value::Bytes(s), Value::Bytes(t)) => Some(Value::Bool(s == t)),
        (Native::Push, Value::Array(s), v) => Some(Value::Array(s.push(v))),
        _ => None,
    }
}

/// What an expression of three arguments makes of them.
pub open spec fn native3(f: Native, a: Value, b: Value, c: Value) -> Option<Value> {
    match (f, a, b, c) {
        (Native::SliceText, Value::Text(s), Value::Int(i), Value::Int(j)) => Some(
            Value::Text(slice(s, i, j)),
        ),
        (Native::SliceBytes, Value::Bytes(s), Value::Int(i), Value::Int(j)) => Some(
            Value::Bytes(slice(s, i, j)),
        ),
        _ => None,
    }
}

/// What an expression of JavaScript's own library makes of its arguments.
pub open spec fn native(m: Model, f: Native, args: Seq<Value>) -> Option<Value> {
    if args.len() == 1 {
        native1(m, f, args[0])
    } else if args.len() == 2 {
        native2(f, args[0], args[1])
    } else if args.len() == 3 {
        native3(f, args[0], args[1], args[2])
    } else {
        None
    }
}

/// What happens after a statement: the next one, or the end of the function.
#[verifier::ext_equal]
pub enum Flow {
    On(Scope, Seq<Event>),
    Off(Run),
}

/// What an expression comes to. `g` gives the functions of the module.
pub open spec fn run(m: Model, g: spec_fn(Seq<char>) -> Value, env: Scope, x: Js, t: Seq<Event>) -> Run
    decreases x, 1nat,
{
    match x {
        Js::Number(n) => done(Value::Int(n), t),
        Js::Float(text) => done(Value::Float((m.float)(text)), t),
        Js::Bool(b) => done(Value::Bool(b), t),
        Js::Text(s) => done(Value::Text(s), t),
        Js::Undefined => done(Value::Unit, t),
        Js::Ident(name) => if env.dom().contains(name) {
            maybe(env[name], t)
        } else {
            done(g(name), t)
        },
        Js::Infix(op, a, b) => {
            let a = run(m, g, env, *a, t);
            match a.out {
                Outcome::Done(x) => {
                    let b = run(m, g, env, *b, a.trace);
                    match b.out {
                        Outcome::Done(y) => maybe(infix(m, op, x, y), b.trace),
                        _ => b,
                    }
                },
                _ => a,
            }
        },
        Js::Cond(c, a, b) => {
            let c = run(m, g, env, *c, t);
            match c.out {
                Outcome::Done(Value::Bool(true)) => run(m, g, env, *a, c.trace),
                Outcome::Done(Value::Bool(false)) => run(m, g, env, *b, c.trace),
                Outcome::Done(_) => stuck(c.trace),
                _ => c,
            }
        },
        Js::List(s) => {
            let s = run_all(m, g, env, s, t);
            match s.stop {
                Some(out) => Run { out, trace: s.trace },
                None => done(Value::Array(s.vals), s.trace),
            }
        },
        Js::Object(tag, s) => {
            let s = run_all(m, g, env, s, t);
            match s.stop {
                Some(out) => Run { out, trace: s.trace },
                None => match tag {
                    Some(tag) => done(Value::Variant(tag, s.vals), s.trace),
                    None => done(Value::Record(s.vals), s.trace),
                },
            }
        },
        Js::Field(a, i) => {
            let v = run(m, g, env, *a, t);
            match v.out {
                Outcome::Done(Value::Record(s)) => if i < s.len() {
                    done(s[i as int], v.trace)
                } else {
                    stuck(v.trace)
                },
                Outcome::Done(Value::Variant(_, s)) => if i < s.len() {
                    done(s[i as int], v.trace)
                } else {
                    stuck(v.trace)
                },
                Outcome::Done(_) => stuck(v.trace),
                _ => v,
            }
        },
        Js::Call(f, s) => {
            let f = run(m, g, env, *f, t);
            match f.out {
                Outcome::Done(callee) => {
                    let s = run_all(m, g, env, s, f.trace);
                    match s.stop {
                        Some(out) => Run { out, trace: s.trace },
                        None => (m.call)(callee, s.vals, s.trace),
                    }
                },
                _ => f,
            }
        },
        Js::Host(name, s) => {
            let s = run_all(m, g, env, s, t);
            match s.stop {
                Some(out) => Run { out, trace: s.trace },
                None => Run {
                    out: (m.platform)(name, s.vals, s.trace),
                    trace: s.trace.push(Event { name, args: s.vals }),
                },
            }
        },
        Js::Native(f, s) => {
            let s = run_all(m, g, env, s, t);
            match s.stop {
                Some(out) => Run { out, trace: s.trace },
                None => maybe(native(m, f, s.vals), s.trace),
            }
        },
        Js::Block(s) => match run_stms(m, g, env, s, t) {
            Flow::On(_, after) => done(Value::Unit, after),
            Flow::Off(r) => r,
        },
    }
}

/// What expressions come to, from left to right.
pub open spec fn run_all(m: Model, g: spec_fn(Seq<char>) -> Value, env: Scope, s: Seq<Js>, t: Seq<Event>) -> Runs
    decreases s, 0nat,
{
    if s.len() == 0 {
        Runs { vals: Seq::empty(), stop: None, trace: t }
    } else {
        let before = run_all(m, g, env, s.drop_last(), t);
        match before.stop {
            Some(_) => before,
            None => {
                let last = run(m, g, env, s.last(), before.trace);
                match last.out {
                    Outcome::Done(v) => Runs {
                        vals: before.vals.push(v),
                        stop: None,
                        trace: last.trace,
                    },
                    out => Runs { vals: before.vals, stop: Some(out), trace: last.trace },
                }
            },
        }
    }
}

/// The tag of a variable's value.
pub open spec fn tag_of(env: Scope, name: Seq<char>) -> Option<nat> {
    if env.dom().contains(name) {
        match env[name] {
            Some(Value::Variant(tag, _)) => Some(tag),
            _ => None,
        }
    } else {
        None
    }
}

/// What a statement does.
pub open spec fn run_stm(m: Model, g: spec_fn(Seq<char>) -> Value, env: Scope, s: Stm, t: Seq<Event>) -> Flow
    decreases s, 0nat,
{
    match s {
        Stm::Const(name, a) => {
            let v = run(m, g, env.insert(name, None), a, t);
            match v.out {
                Outcome::Done(x) => Flow::On(env.insert(name, Some(x)), v.trace),
                _ => Flow::Off(v),
            }
        },
        Stm::Return(a) => Flow::Off(run(m, g, env, a, t)),
        Stm::ReturnIf(c, a) => {
            let c = run(m, g, env, c, t);
            match c.out {
                Outcome::Done(Value::Bool(true)) => Flow::Off(run(m, g, env, a, c.trace)),
                Outcome::Done(Value::Bool(false)) => Flow::On(env, c.trace),
                Outcome::Done(_) => Flow::Off(stuck(c.trace)),
                _ => Flow::Off(c),
            }
        },
        Stm::IfTag(name, tag, s) => match tag_of(env, name) {
            Some(is) => if is == tag {
                match run_stms(m, g, env, s, t) {
                    Flow::On(_, after) => Flow::On(env, after),
                    Flow::Off(r) => Flow::Off(r),
                }
            } else {
                Flow::On(env, t)
            },
            None => Flow::Off(stuck(t)),
        },
        Stm::Braces(s) => match run_stms(m, g, env, s, t) {
            Flow::On(_, after) => Flow::On(env, after),
            Flow::Off(r) => Flow::Off(r),
        },
        Stm::ThrowError(a) => {
            let v = run(m, g, env, a, t);
            match v.out {
                Outcome::Done(x) => Flow::Off(Run { out: Outcome::Raised(x), trace: v.trace }),
                _ => Flow::Off(v),
            }
        },
        Stm::ThrowPanic(a) => {
            let v = run(m, g, env, a, t);
            match v.out {
                Outcome::Done(x) => Flow::Off(Run { out: Outcome::Panicked(x), trace: v.trace }),
                _ => Flow::Off(v),
            }
        },
        Stm::ThrowNoneIf(name, tag) => match tag_of(env, name) {
            Some(is) => if is == tag {
                Flow::Off(Run { out: Outcome::Nothing, trace: t })
            } else {
                Flow::On(env, t)
            },
            None => Flow::Off(stuck(t)),
        },
        Stm::ThrowUnmatched => Flow::Off(stuck(t)),
        Stm::Catch(a, s) => {
            let v = run(m, g, env, a, t);
            match v.out {
                Outcome::Raised(x) => match run_stms(
                    m,
                    g,
                    env.insert("__err"@, Some(x)),
                    s,
                    v.trace,
                ) {
                    Flow::On(_, after) => Flow::Off(Run { out: Outcome::Raised(x), trace: after }),
                    Flow::Off(r) => Flow::Off(r),
                },
                _ => Flow::Off(v),
            }
        },
        Stm::CatchNone(a) => {
            let v = run(m, g, env, a, t);
            match v.out {
                Outcome::Nothing => Flow::Off(done(Value::Variant(1, Seq::empty()), v.trace)),
                _ => Flow::Off(v),
            }
        },
    }
}

/// What statements do, one after the other.
pub open spec fn run_stms(m: Model, g: spec_fn(Seq<char>) -> Value, env: Scope, s: Seq<Stm>, t: Seq<Event>) -> Flow
    decreases s, 0nat,
{
    if s.len() == 0 {
        Flow::On(env, t)
    } else {
        match run_stms(m, g, env, s.drop_last(), t) {
            Flow::On(env, after) => run_stm(m, g, env, s.last(), after),
            Flow::Off(r) => Flow::Off(r),
        }
    }
}

} // verus!
