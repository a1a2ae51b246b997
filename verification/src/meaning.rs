//! What expressions mean.
//!
//! The values that expressions stand for, and the effects on the way to them, in
//! the order in which they happen. Nothing here says how a backend gets there.

use vstd::prelude::*;
use vstd::utf8::encode_utf8;

use crate::ir::{ArmNode, Bind, Node, Pat, QuestionMode};
use crate::types::{BinaryOp, Ty};

verus! {

/// A value. A character is its scalar value.
#[verifier::ext_equal]
pub enum Value {
    Unit,
    Bool(bool),
    Int(int),
    /// A floating-point number, whatever it is.
    Float(int),
    Text(Seq<char>),
    Bytes(Seq<u8>),
    Array(Seq<Value>),
    Record(Seq<Value>),
    /// A value of an enum: the tag of its variant, and its payload.
    Variant(nat, Seq<Value>),
    /// The quotient of two integers, before it is made an integer.
    Ratio(int, int),
    /// A function, by number.
    Function(int),
}

/// A call of a platform function.
#[verifier::ext_equal]
pub struct Event {
    pub name: Seq<char>,
    pub args: Seq<Value>,
}

/// How an expression ends.
#[verifier::ext_equal]
pub enum Outcome {
    Done(Value),
    /// A thrown error.
    Raised(Value),
    /// A propagated `None`.
    Nothing,
    Panicked(Value),
    /// Nothing is said of such an expression.
    Stuck,
}

/// How an expression ends, and what has happened by then.
#[verifier::ext_equal]
pub struct Run {
    pub out: Outcome,
    pub trace: Seq<Event>,
}

/// An operation on floating-point numbers.
pub enum FloatOp {
    Sum,
    Difference,
    Product,
    Quotient,
    Root,
}

/// What an expression leaves open: floating-point arithmetic, the order of texts,
/// and what functions and the platform do.
pub struct Model {
    pub float: spec_fn(Seq<char>) -> int,
    pub float_op: spec_fn(FloatOp, int, int) -> int,
    pub float_eq: spec_fn(int, int) -> bool,
    pub float_lt: spec_fn(int, int) -> bool,
    pub text_lt: spec_fn(Seq<char>, Seq<char>) -> bool,
    pub decoded: spec_fn(Seq<u8>) -> Seq<char>,
    pub function: spec_fn(Seq<char>) -> Value,
    pub call: spec_fn(Value, Seq<Value>, Seq<Event>) -> Run,
    pub platform: spec_fn(Seq<char>, Seq<Value>, Seq<Event>) -> Outcome,
}

/// The variables in scope.
pub type Env = Map<Seq<char>, Value>;

/// Ends with a value.
pub open spec fn done(v: Value, t: Seq<Event>) -> Run {
    Run { out: Outcome::Done(v), trace: t }
}

/// Ends with a value, if there is one.
pub open spec fn maybe(v: Option<Value>, t: Seq<Event>) -> Run {
    match v {
        Some(v) => done(v, t),
        None => stuck(t),
    }
}

/// Says nothing.
pub open spec fn stuck(t: Seq<Event>) -> Run {
    Run { out: Outcome::Stuck, trace: t }
}

/// Whether a number is an `Int`.
pub open spec fn is_int(n: int) -> bool {
    -0x8000_0000 <= n <= 0x7fff_ffff
}

/// An `Int`, if the number is one: on overflow backends differ.
pub open spec fn int_value(n: int) -> Option<Value> {
    if is_int(n) {
        Some(Value::Int(n))
    } else {
        None
    }
}

/// The quotient of two integers, toward zero.
pub open spec fn quotient(a: int, b: int) -> int {
    if (a < 0) == (b < 0) {
        magnitude(a) / magnitude(b)
    } else {
        -(magnitude(a) / magnitude(b))
    }
}

/// The absolute value of an integer.
pub open spec fn magnitude(a: int) -> int {
    if a < 0 {
        -a
    } else {
        a
    }
}

/// What is left of a division toward zero.
pub open spec fn remainder(a: int, b: int) -> int {
    a - b * quotient(a, b)
}

/// An integer as an unsigned word.
pub open spec fn word(a: int) -> u32 {
    (a % 0x1_0000_0000) as u32
}

/// The `Int` with the same word.
pub open spec fn wrapped(a: int) -> int {
    (a + 0x8000_0000) % 0x1_0000_0000 - 0x8000_0000
}

/// By how many bits a shift shifts.
pub open spec fn places(b: int) -> u32 {
    (b % 32) as u32
}

/// The whole number that an arithmetic intrinsic on `Int` stands for.
pub open spec fn arithmetic(name: Seq<char>, a: int, b: int) -> Option<int> {
    if name == "i32_add"@ {
        Some(a + b)
    } else if name == "i32_sub"@ {
        Some(a - b)
    } else if name == "i32_mul"@ {
        Some(a * b)
    } else if name == "i32_div_s"@ && b != 0 {
        Some(quotient(a, b))
    } else if name == "i32_rem_s"@ && b != 0 {
        Some(remainder(a, b))
    } else if name == "i32_and"@ {
        Some(wrapped((word(a) & word(b)) as int))
    } else if name == "i32_or"@ {
        Some(wrapped((word(a) | word(b)) as int))
    } else if name == "i32_xor"@ {
        Some(wrapped((word(a) ^ word(b)) as int))
    } else if name == "i32_shl"@ {
        Some(wrapped((word(a) << places(b)) as int))
    } else if name == "i32_shr_s"@ {
        Some(((wrapped(a) as i32) >> places(b)) as int)
    } else if name == "i32_shr_u"@ {
        Some(wrapped((word(a) >> places(b)) as int))
    } else {
        None
    }
}

/// The truth value that a comparing intrinsic on `Int` stands for.
pub open spec fn relation(name: Seq<char>, a: int, b: int) -> Option<bool> {
    if name == "i32_eq"@ {
        Some(a == b)
    } else if name == "i32_lt_s"@ {
        Some(a < b)
    } else {
        None
    }
}

/// The number that an arithmetic intrinsic on `Float` stands for.
pub open spec fn float_arithmetic(m: Model, name: Seq<char>, a: int, b: int) -> Option<int> {
    if name == "f64_add"@ {
        Some((m.float_op)(FloatOp::Sum, a, b))
    } else if name == "f64_sub"@ {
        Some((m.float_op)(FloatOp::Difference, a, b))
    } else if name == "f64_mul"@ {
        Some((m.float_op)(FloatOp::Product, a, b))
    } else if name == "f64_div"@ {
        Some((m.float_op)(FloatOp::Quotient, a, b))
    } else {
        None
    }
}

/// The truth value that a comparing intrinsic on `Float` stands for.
pub open spec fn float_relation(m: Model, name: Seq<char>, a: int, b: int) -> Option<bool> {
    if name == "f64_eq"@ {
        Some((m.float_eq)(a, b))
    } else if name == "f64_lt"@ {
        Some((m.float_lt)(a, b))
    } else {
        None
    }
}

/// A truth value, if there is one.
pub open spec fn truth(b: Option<bool>) -> Option<Value> {
    match b {
        Some(b) => Some(Value::Bool(b)),
        None => None,
    }
}

/// A position within a sequence of length `n`.
pub open spec fn within(i: int, n: nat) -> int {
    if i < 0 {
        0
    } else if i > n {
        n as int
    } else {
        i
    }
}

/// The part of a sequence between two positions, which need not be within it.
pub open spec fn slice<T>(s: Seq<T>, from: int, to: int) -> Seq<T> {
    if within(from, s.len()) <= within(to, s.len()) {
        s.subrange(within(from, s.len()), within(to, s.len()))
    } else {
        Seq::empty()
    }
}

/// What an intrinsic makes of two `Int`s.
pub open spec fn of_ints(name: Seq<char>, a: int, b: int) -> Option<Value> {
    match arithmetic(name, a, b) {
        Some(n) => int_value(n),
        None => truth(relation(name, a, b)),
    }
}

/// What an intrinsic makes of two `Float`s.
pub open spec fn of_floats(m: Model, name: Seq<char>, a: int, b: int) -> Option<Value> {
    match float_arithmetic(m, name, a, b) {
        Some(n) => Some(Value::Float(n)),
        None => truth(float_relation(m, name, a, b)),
    }
}

/// What an intrinsic makes of one value.
pub open spec fn of_one(m: Model, name: Seq<char>, a: Value) -> Option<Value> {
    match a {
        Value::Float(x) => if name == "f64_sqrt"@ {
            Some(Value::Float((m.float_op)(FloatOp::Root, x, x)))
        } else {
            None
        },
        Value::Text(s) => if name == "string_length"@ {
            int_value(s.len() as int)
        } else if name == "bytes_from_string"@ {
            Some(Value::Bytes(encode_utf8(s)))
        } else {
            None
        },
        Value::Int(n) => if name == "char_code"@ || name == "char_from_code"@ {
            Some(Value::Int(n))
        } else if name == "string_from_char"@ && is_scalar(n) {
            Some(Value::Text(seq![n as char]))
        } else {
            None
        },
        Value::Bytes(s) => if name == "bytes_length"@ {
            int_value(s.len() as int)
        } else if name == "bytes_as_string_unchecked"@ {
            Some(Value::Text((m.decoded)(s)))
        } else {
            None
        },
        Value::Array(s) => if name == "array_length"@ {
            int_value(s.len() as int)
        } else {
            None
        },
        _ => None,
    }
}

/// Whether a number is that of a character.
pub open spec fn is_scalar(n: int) -> bool {
    0 <= n < 0xd800 || 0xe000 <= n < 0x11_0000
}

/// What an intrinsic makes of two values.
pub open spec fn of_two(m: Model, name: Seq<char>, a: Value, b: Value) -> Option<Value> {
    match (a, b) {
        (Value::Int(x), Value::Int(y)) => of_ints(name, x, y),
        (Value::Float(x), Value::Float(y)) => of_floats(m, name, x, y),
        (Value::Text(s), Value::Text(t)) => if name == "string_concat"@ {
            Some(Value::Text(s + t))
        } else if name == "string_eq"@ {
            Some(Value::Bool(s == t))
        } else if name == "string_lt"@ {
            Some(Value::Bool((m.text_lt)(s, t)))
        } else {
            None
        },
        (Value::Text(s), Value::Int(i)) => if name == "string_char_at"@ && 0 <= i < s.len() {
            Some(Value::Int(s[i] as int))
        } else {
            None
        },
        (Value::Bytes(s), Value::Bytes(t)) => if name == "bytes_concat"@ {
            Some(Value::Bytes(s + t))
        } else if name == "bytes_eq"@ {
            Some(Value::Bool(s == t))
        } else {
            None
        },
        (Value::Bytes(s), Value::Int(i)) => if name == "bytes_get_unchecked"@ && 0 <= i < s.len() {
            Some(Value::Int(s[i] as int))
        } else {
            None
        },
        (Value::Array(s), v) => if name == "array_push"@ {
            Some(Value::Array(s.push(v)))
        } else if name == "array_get_unchecked"@ && v is Int && 0 <= v->Int_0 < s.len() {
            Some(s[v->Int_0])
        } else {
            None
        },
        _ => None,
    }
}

/// What an intrinsic makes of a text or bytes and two positions.
pub open spec fn of_three(name: Seq<char>, a: Value, b: Value, c: Value) -> Option<Value> {
    match (a, b, c) {
        (Value::Text(s), Value::Int(i), Value::Int(j)) => if name == "string_slice"@ {
            Some(Value::Text(slice(s, i, j)))
        } else {
            None
        },
        (Value::Bytes(s), Value::Int(i), Value::Int(j)) => if name == "bytes_slice"@ {
            Some(Value::Bytes(slice(s, i, j)))
        } else {
            None
        },
        _ => None,
    }
}

/// What an intrinsic makes of its arguments.
pub open spec fn operate(m: Model, name: Seq<char>, args: Seq<Value>) -> Option<Value> {
    if args.len() == 1 {
        of_one(m, name, args[0])
    } else if args.len() == 2 {
        of_two(m, name, args[0], args[1])
    } else if args.len() == 3 {
        of_three(name, args[0], args[1], args[2])
    } else {
        None
    }
}

/// What an operator makes of two values.
pub open spec fn apply(m: Model, op: BinaryOp, a: Value, b: Value) -> Option<Value> {
    match (a, b) {
        (Value::Int(x), Value::Int(y)) => match op {
            BinaryOp::Add => int_value(x + y),
            BinaryOp::Sub => int_value(x - y),
            BinaryOp::Mul => int_value(x * y),
            BinaryOp::Div => if y != 0 {
                int_value(quotient(x, y))
            } else {
                None
            },
            BinaryOp::Rem => if y != 0 {
                int_value(remainder(x, y))
            } else {
                None
            },
            BinaryOp::Eq => Some(Value::Bool(x == y)),
            BinaryOp::Ne => Some(Value::Bool(x != y)),
            BinaryOp::Lt => Some(Value::Bool(x < y)),
            BinaryOp::Le => Some(Value::Bool(x <= y)),
            BinaryOp::Gt => Some(Value::Bool(x > y)),
            BinaryOp::Ge => Some(Value::Bool(x >= y)),
            BinaryOp::Shl => int_value(wrapped((word(x) << places(y)) as int)),
            BinaryOp::Shr => int_value(((wrapped(x) as i32) >> places(y)) as int),
            _ => None,
        },
        (Value::Float(x), Value::Float(y)) => match op {
            BinaryOp::Add => Some(Value::Float((m.float_op)(FloatOp::Sum, x, y))),
            BinaryOp::Sub => Some(Value::Float((m.float_op)(FloatOp::Difference, x, y))),
            BinaryOp::Mul => Some(Value::Float((m.float_op)(FloatOp::Product, x, y))),
            BinaryOp::Div => Some(Value::Float((m.float_op)(FloatOp::Quotient, x, y))),
            BinaryOp::Eq => Some(Value::Bool((m.float_eq)(x, y))),
            BinaryOp::Lt => Some(Value::Bool((m.float_lt)(x, y))),
            _ => None,
        },
        (Value::Text(s), Value::Text(t)) => match op {
            BinaryOp::Concat => Some(Value::Text(s + t)),
            BinaryOp::Eq => Some(Value::Bool(s == t)),
            BinaryOp::Ne => Some(Value::Bool(s != t)),
            BinaryOp::Lt => Some(Value::Bool((m.text_lt)(s, t))),
            _ => None,
        },
        _ => None,
    }
}

/// Values one after the other, and what has happened by then. Where one of them
/// does not come to be, how it ended.
#[verifier::ext_equal]
pub struct Runs {
    pub vals: Seq<Value>,
    pub stop: Option<Outcome>,
    pub trace: Seq<Event>,
}

/// What happens in the arms of a `match` or a `catch`: one is taken, or none is.
#[verifier::ext_equal]
pub enum Choice {
    Taken(Run),
    Missed(Seq<Event>),
}

/// The variables in an arm, if its pattern fits.
pub open spec fn bind_all(env: Env, binds: Seq<Option<Bind>>, vals: Seq<Value>) -> Env
    decreases binds.len(),
{
    if binds.len() == 0 {
        env
    } else {
        let before = bind_all(env, binds.drop_last(), vals);
        match binds.last() {
            Some(b) => before.insert(b.name, vals[binds.len() - 1]),
            None => before,
        }
    }
}

/// How a call ends, and what has happened by then.
pub open spec fn call(m: Model, callee: Value, args: Runs) -> Run {
    match args.stop {
        Some(out) => Run { out, trace: args.trace },
        None => (m.call)(callee, args.vals, args.trace),
    }
}

/// What an expression comes to, after what has happened before it. `me` names the
/// function that it belongs to.
pub open spec fn eval(m: Model, me: Seq<char>, env: Env, e: Node, t: Seq<Event>) -> Run
    decreases e, 1nat,
{
    match e {
        Node::Int(n) => done(Value::Int(n as int), t),
        Node::Float(text) => done(Value::Float((m.float)(text)), t),
        Node::Bool(b) => done(Value::Bool(b), t),
        Node::String(s) => done(Value::Text(s), t),
        Node::Char(c) => done(Value::Int(c as int), t),
        Node::Unit => done(Value::Unit, t),
        Node::Var { name, .. } => if env.dom().contains(name) {
            done(env[name], t)
        } else {
            stuck(t)
        },
        Node::FunctionRef { name, .. } => done((m.function)(name), t),
        Node::Let { name, value, next, .. } => {
            let v = eval(m, me, env, *value, t);
            match v.out {
                Outcome::Done(x) => eval(m, me, env.insert(name, x), *next, v.trace),
                _ => v,
            }
        },
        Node::If { cond, then, els, .. } => {
            let c = eval(m, me, env, *cond, t);
            match c.out {
                Outcome::Done(Value::Bool(true)) => eval(m, me, env, *then, c.trace),
                Outcome::Done(Value::Bool(false)) => eval(m, me, env, *els, c.trace),
                Outcome::Done(_) => stuck(c.trace),
                _ => c,
            }
        },
        Node::Array { elems, .. } => {
            let s = eval_all(m, me, env, elems, t);
            match s.stop {
                Some(out) => Run { out, trace: s.trace },
                None => done(Value::Array(s.vals), s.trace),
            }
        },
        Node::RecordValue { fields, .. } => {
            let s = eval_all(m, me, env, fields, t);
            match s.stop {
                Some(out) => Run { out, trace: s.trace },
                None => done(Value::Record(s.vals), s.trace),
            }
        },
        Node::EnumValue { tag, payload, .. } => {
            let s = eval_all(m, me, env, payload, t);
            match s.stop {
                Some(out) => Run { out, trace: s.trace },
                None => done(Value::Variant(tag as nat, s.vals), s.trace),
            }
        },
        Node::FieldAccess { target, index, .. } => {
            let v = eval(m, me, env, *target, t);
            match v.out {
                Outcome::Done(Value::Record(s)) => if index < s.len() {
                    done(s[index as int], v.trace)
                } else {
                    stuck(v.trace)
                },
                Outcome::Done(_) => stuck(v.trace),
                _ => v,
            }
        },
        Node::Call { callee, args, .. } => {
            let f = eval(m, me, env, *callee, t);
            match f.out {
                Outcome::Done(callee) => call(m, callee, eval_all(m, me, env, args, f.trace)),
                _ => f,
            }
        },
        Node::TailSelfCall { args, .. } => call(
            m,
            (m.function)(me),
            eval_all(m, me, env, args, t),
        ),
        Node::Platform { name, args, .. } => {
            let s = eval_all(m, me, env, args, t);
            match s.stop {
                Some(out) => Run { out, trace: s.trace },
                None => Run {
                    out: (m.platform)(name, s.vals, s.trace),
                    trace: s.trace.push(Event { name, args: s.vals }),
                },
            }
        },
        Node::Intrinsic { name, args, .. } => {
            let s = eval_all(m, me, env, args, t);
            match s.stop {
                Some(out) => Run { out, trace: s.trace },
                None => maybe(operate(m, name, s.vals), s.trace),
            }
        },
        Node::Binary { op, ty, left, right } => {
            let a = eval(m, me, env, *left, t);
            match a.out {
                Outcome::Done(x) => {
                    let b = eval(m, me, env, *right, a.trace);
                    match b.out {
                        Outcome::Done(y) => if op == BinaryOp::Div && (ty == Ty::Int) != (x is Int) {
                            stuck(b.trace)
                        } else {
                            maybe(apply(m, op, x, y), b.trace)
                        },
                        _ => b,
                    }
                },
                _ => a,
            }
        },
        Node::Concat { left, right } => {
            let a = eval(m, me, env, *left, t);
            match a.out {
                Outcome::Done(x) => {
                    let b = eval(m, me, env, *right, a.trace);
                    match b.out {
                        Outcome::Done(y) => maybe(apply(m, BinaryOp::Concat, x, y), b.trace),
                        _ => b,
                    }
                },
                _ => a,
            }
        },
        Node::CharFromCode(value) => {
            let v = eval(m, me, env, *value, t);
            match v.out {
                Outcome::Done(x) => maybe(of_one(m, "char_from_code"@, x), v.trace),
                _ => v,
            }
        },
        Node::StringFromChar(value) => {
            let v = eval(m, me, env, *value, t);
            match v.out {
                Outcome::Done(x) => maybe(of_one(m, "string_from_char"@, x), v.trace),
                _ => v,
            }
        },
        Node::Match { scrutinee, arms, .. } => {
            let v = eval(m, me, env, *scrutinee, t);
            match v.out {
                Outcome::Done(x) => match choose_arm(m, me, env, arms, x, v.trace) {
                    Choice::Taken(r) => r,
                    Choice::Missed(after) => stuck(after),
                },
                _ => v,
            }
        },
        Node::Throw { value } => {
            let v = eval(m, me, env, *value, t);
            match v.out {
                Outcome::Done(x) => Run { out: Outcome::Raised(x), trace: v.trace },
                _ => v,
            }
        },
        // An error that no arm takes goes on.
        Node::Try { body, arms, .. } => {
            let v = eval(m, me, env, *body, t);
            match v.out {
                Outcome::Raised(x) => match choose_arm(m, me, env, arms, x, v.trace) {
                    Choice::Taken(r) => r,
                    Choice::Missed(after) => Run { out: Outcome::Raised(x), trace: after },
                },
                _ => v,
            }
        },
        Node::Question { value, mode, .. } => {
            let v = eval(m, me, env, *value, t);
            match mode {
                QuestionMode::Throws => v,
                // `Some` is the first variant of `Option`, `None` the second.
                QuestionMode::Option => match v.out {
                    Outcome::Done(Value::Variant(tag, s)) => if tag == 1 {
                        Run { out: Outcome::Nothing, trace: v.trace }
                    } else if tag == 0 && s.len() == 1 {
                        done(s[0], v.trace)
                    } else {
                        stuck(v.trace)
                    },
                    Outcome::Done(_) => stuck(v.trace),
                    _ => v,
                },
            }
        },
        Node::Panic { message } => {
            let v = eval(m, me, env, *message, t);
            match v.out {
                Outcome::Done(x) => Run { out: Outcome::Panicked(x), trace: v.trace },
                _ => v,
            }
        },
        // Counting references changes no value.
        Node::Retain { value } => eval(m, me, env, *value, t),
        Node::Release { next, .. } => eval(m, me, env, *next, t),
        Node::Fn { .. } => stuck(t),
    }
}

/// What expressions come to, from left to right.
pub open spec fn eval_all(m: Model, me: Seq<char>, env: Env, s: Seq<Node>, t: Seq<Event>) -> Runs
    decreases s, 0nat,
{
    if s.len() == 0 {
        Runs { vals: Seq::empty(), stop: None, trace: t }
    } else {
        let before = eval_all(m, me, env, s.drop_last(), t);
        match before.stop {
            Some(_) => before,
            None => {
                let last = eval(m, me, env, s.last(), before.trace);
                match last.out {
                    Outcome::Done(v) => Runs {
                        vals: before.vals.push(v),
                        stop: None,
                        trace: last.trace,
                    },
                    out => Runs { vals: before.vals, stop: Some(out), trace: last.trace },
                }
            },
        }
    }
}

/// The first arm that fits a value, its guard included.
pub open spec fn choose_arm(m: Model, me: Seq<char>, env: Env, s: Seq<ArmNode>, v: Value, t: Seq<Event>) -> Choice
    decreases s, 0nat,
{
    if s.len() == 0 {
        Choice::Missed(t)
    } else {
        match choose_arm(m, me, env, s.drop_last(), v, t) {
            Choice::Taken(r) => Choice::Taken(r),
            Choice::Missed(after) => try_arm(m, me, env, s.last(), v, after),
        }
    }
}

/// Whether an arm fits a value, and what it comes to.
pub open spec fn try_arm(m: Model, me: Seq<char>, env: Env, arm: ArmNode, v: Value, t: Seq<Event>) -> Choice
    decreases arm, 1nat,
{
    match arm.pattern {
        Pat::Variant { tag, bindings, .. } => match v {
            Value::Variant(is, vals) => if is != tag {
                Choice::Missed(t)
            } else if bindings.len() > vals.len() {
                Choice::Taken(stuck(t))
            } else {
                take_arm(m, me, bind_all(env, bindings, vals), arm, t)
            },
            _ => Choice::Taken(stuck(t)),
        },
        Pat::Wildcard { binding } => match binding {
            Some(b) => take_arm(m, me, env.insert(b.name, v), arm, t),
            None => take_arm(m, me, env, arm, t),
        },
    }
}

/// An arm whose pattern fits.
pub open spec fn take_arm(m: Model, me: Seq<char>, env: Env, arm: ArmNode, t: Seq<Event>) -> Choice
    decreases arm, 0nat,
{
    match arm.guard {
        Some(guard) => {
            let g = eval(m, me, env, *guard, t);
            match g.out {
                Outcome::Done(Value::Bool(true)) => Choice::Taken(
                    eval(m, me, env, *arm.body, g.trace),
                ),
                Outcome::Done(Value::Bool(false)) => Choice::Missed(g.trace),
                Outcome::Done(_) => Choice::Taken(stuck(g.trace)),
                _ => Choice::Taken(g),
            }
        },
        None => Choice::Taken(eval(m, me, env, *arm.body, t)),
    }
}

/// What the names of intrinsics are told apart by: their lengths and some of their
/// characters.
pub open spec fn mark_of(name: Seq<char>) -> (nat, char, char, char) {
    (name.len(), name[0], name[5], name[name.len() - 1])
}

/// Different intrinsics have different names.
pub proof fn names_differ()
    ensures
        mark_of("i32_add"@) == (7nat, 'i', 'd', 'd'),
        mark_of("i32_sub"@) == (7nat, 'i', 'u', 'b'),
        mark_of("i32_mul"@) == (7nat, 'i', 'u', 'l'),
        mark_of("i32_div_s"@) == (9nat, 'i', 'i', 's'),
        mark_of("i32_rem_s"@) == (9nat, 'i', 'e', 's'),
        mark_of("i32_and"@) == (7nat, 'i', 'n', 'd'),
        mark_of("i32_or"@) == (6nat, 'i', 'r', 'r'),
        mark_of("i32_xor"@) == (7nat, 'i', 'o', 'r'),
        mark_of("i32_shl"@) == (7nat, 'i', 'h', 'l'),
        mark_of("i32_shr_s"@) == (9nat, 'i', 'h', 's'),
        mark_of("i32_shr_u"@) == (9nat, 'i', 'h', 'u'),
        mark_of("i32_eq"@) == (6nat, 'i', 'q', 'q'),
        mark_of("i32_lt_s"@) == (8nat, 'i', 't', 's'),
        mark_of("f64_add"@) == (7nat, 'f', 'd', 'd'),
        mark_of("f64_sub"@) == (7nat, 'f', 'u', 'b'),
        mark_of("f64_mul"@) == (7nat, 'f', 'u', 'l'),
        mark_of("f64_div"@) == (7nat, 'f', 'i', 'v'),
        mark_of("f64_eq"@) == (6nat, 'f', 'q', 'q'),
        mark_of("f64_lt"@) == (6nat, 'f', 't', 't'),
        mark_of("f64_sqrt"@) == (8nat, 'f', 'q', 't'),
        mark_of("string_concat"@) == (13nat, 's', 'g', 't'),
        mark_of("string_eq"@) == (9nat, 's', 'g', 'q'),
        mark_of("string_lt"@) == (9nat, 's', 'g', 't'),
        mark_of("string_length"@) == (13nat, 's', 'g', 'h'),
        mark_of("string_char_at"@) == (14nat, 's', 'g', 't'),
        mark_of("string_slice"@) == (12nat, 's', 'g', 'e'),
        mark_of("char_code"@) == (9nat, 'c', 'c', 'e'),
        mark_of("char_from_code"@) == (14nat, 'c', 'f', 'e'),
        mark_of("string_from_char"@) == (16nat, 's', 'g', 'r'),
        mark_of("bytes_length"@) == (12nat, 'b', '_', 'h'),
        mark_of("bytes_get_unchecked"@) == (19nat, 'b', '_', 'd'),
        mark_of("bytes_slice"@) == (11nat, 'b', '_', 'e'),
        mark_of("bytes_concat"@) == (12nat, 'b', '_', 't'),
        mark_of("bytes_eq"@) == (8nat, 'b', '_', 'q'),
        mark_of("bytes_from_string"@) == (17nat, 'b', '_', 'g'),
        mark_of("bytes_as_string_unchecked"@) == (25nat, 'b', '_', 'd'),
        mark_of("array_length"@) == (12nat, 'a', '_', 'h'),
        mark_of("array_get_unchecked"@) == (19nat, 'a', '_', 'd'),
        mark_of("array_push"@) == (10nat, 'a', '_', 'h'),
{
    reveal_strlit("i32_add");
    reveal_strlit("i32_sub");
    reveal_strlit("i32_mul");
    reveal_strlit("i32_div_s");
    reveal_strlit("i32_rem_s");
    reveal_strlit("i32_and");
    reveal_strlit("i32_or");
    reveal_strlit("i32_xor");
    reveal_strlit("i32_shl");
    reveal_strlit("i32_shr_s");
    reveal_strlit("i32_shr_u");
    reveal_strlit("i32_eq");
    reveal_strlit("i32_lt_s");
    reveal_strlit("f64_add");
    reveal_strlit("f64_sub");
    reveal_strlit("f64_mul");
    reveal_strlit("f64_div");
    reveal_strlit("f64_eq");
    reveal_strlit("f64_lt");
    reveal_strlit("f64_sqrt");
    reveal_strlit("string_concat");
    reveal_strlit("string_eq");
    reveal_strlit("string_lt");
    reveal_strlit("string_length");
    reveal_strlit("string_char_at");
    reveal_strlit("string_slice");
    reveal_strlit("char_code");
    reveal_strlit("char_from_code");
    reveal_strlit("string_from_char");
    reveal_strlit("bytes_length");
    reveal_strlit("bytes_get_unchecked");
    reveal_strlit("bytes_slice");
    reveal_strlit("bytes_concat");
    reveal_strlit("bytes_eq");
    reveal_strlit("bytes_from_string");
    reveal_strlit("bytes_as_string_unchecked");
    reveal_strlit("array_length");
    reveal_strlit("array_get_unchecked");
    reveal_strlit("array_push");
}

} // verus!
