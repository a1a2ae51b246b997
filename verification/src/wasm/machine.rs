//! Instructions compute what intrinsics and operators mean.

use vstd::prelude::*;

use crate::meaning::{
    apply, arithmetic, is_int, names_differ, operate, quotient, remainder, wrapped, FloatOp,
    Model, Value,
};
use crate::types::BinaryOp;
use crate::wasm::code::{binary_op, inlined, Inlined};
use crate::wasm::layout::WasmTy;

verus! {

/// A number on the stack of the machine.
#[verifier::ext_equal]
pub enum Cell {
    /// A word, as a signed integer.
    I32(int),
    F64(int),
}

/// A truth value as a word.
pub open spec fn flag(b: bool) -> Cell {
    if b {
        Cell::I32(1)
    } else {
        Cell::I32(0)
    }
}

/// What an instruction makes of two words. `None` is a trap, or no such instruction.
pub open spec fn word_step(text: Seq<char>, a: int, b: int) -> Option<Cell> {
    if text == "i32.add"@ {
        Some(Cell::I32(wrapped(a + b)))
    } else if text == "i32.sub"@ {
        Some(Cell::I32(wrapped(a - b)))
    } else if text == "i32.mul"@ {
        Some(Cell::I32(wrapped(a * b)))
    } else if text == "i32.div_s"@ && b != 0 && is_int(quotient(a, b)) {
        Some(Cell::I32(quotient(a, b)))
    } else if text == "i32.rem_s"@ && b != 0 {
        Some(Cell::I32(remainder(a, b)))
    } else if text == "i32.eq"@ {
        Some(flag(a == b))
    } else if text == "i32.ne"@ {
        Some(flag(a != b))
    } else if text == "i32.lt_s"@ {
        Some(flag(a < b))
    } else if text == "i32.gt_s"@ {
        Some(flag(a > b))
    } else if text == "i32.le_s"@ {
        Some(flag(a <= b))
    } else if text == "i32.ge_s"@ {
        Some(flag(a >= b))
    } else {
        None
    }
}

/// What an instruction makes of two floating-point numbers.
pub open spec fn float_step(m: Model, text: Seq<char>, a: int, b: int) -> Option<Cell> {
    if text == "f64.add"@ {
        Some(Cell::F64((m.float_op)(FloatOp::Sum, a, b)))
    } else if text == "f64.sub"@ {
        Some(Cell::F64((m.float_op)(FloatOp::Difference, a, b)))
    } else if text == "f64.mul"@ {
        Some(Cell::F64((m.float_op)(FloatOp::Product, a, b)))
    } else if text == "f64.div"@ {
        Some(Cell::F64((m.float_op)(FloatOp::Quotient, a, b)))
    } else if text == "f64.eq"@ {
        Some(flag((m.float_eq)(a, b)))
    } else if text == "f64.lt"@ {
        Some(flag((m.float_lt)(a, b)))
    } else {
        None
    }
}

/// What an instruction makes of the stack.
pub open spec fn step(m: Model, text: Seq<char>, stack: Seq<Cell>) -> Option<Seq<Cell>> {
    if text == "f64.sqrt"@ && stack.len() >= 1 {
        match stack.last() {
            Cell::F64(a) => Some(
                stack.drop_last().push(Cell::F64((m.float_op)(FloatOp::Root, a, a))),
            ),
            _ => None,
        }
    } else if stack.len() >= 2 {
        let below = stack.drop_last().drop_last();
        let made = match (stack[stack.len() - 2], stack.last()) {
            (Cell::I32(a), Cell::I32(b)) => word_step(text, a, b),
            (Cell::F64(a), Cell::F64(b)) => float_step(m, text, a, b),
            _ => None,
        };
        match made {
            Some(c) => Some(below.push(c)),
            None => None,
        }
    } else {
        None
    }
}

/// A value on the stack.
pub open spec fn cell(v: Value) -> Cell {
    match v {
        Value::Int(n) => Cell::I32(n),
        Value::Bool(b) => flag(b),
        Value::Float(x) => Cell::F64(x),
        _ => Cell::I32(0),
    }
}

/// Values on the stack, the last one on top.
pub open spec fn cells(s: Seq<Value>) -> Seq<Cell> {
    s.map_values(|v: Value| cell(v))
}

/// The intrinsics that are one instruction.
pub open spec fn is_instruction(name: Seq<char>) -> bool {
    ||| name == "i32_add"@
    ||| name == "i32_sub"@
    ||| name == "i32_mul"@
    ||| name == "i32_div_s"@
    ||| name == "i32_rem_s"@
    ||| name == "i32_eq"@
    ||| name == "i32_lt_s"@
    ||| name == "f64_add"@
    ||| name == "f64_sub"@
    ||| name == "f64_mul"@
    ||| name == "f64_div"@
    ||| name == "f64_eq"@
    ||| name == "f64_lt"@
    ||| name == "f64_sqrt"@
}

/// What instructions are told apart by.
spec fn letters(text: Seq<char>) -> (nat, char, char, char) {
    (text.len(), text[0], text[4], text[5])
}

proof fn lemma_instructions_differ()
    ensures
        letters("i32.add"@) == (7nat, 'i', 'a', 'd'),
        letters("i32.sub"@) == (7nat, 'i', 's', 'u'),
        letters("i32.mul"@) == (7nat, 'i', 'm', 'u'),
        letters("i32.div_s"@) == (9nat, 'i', 'd', 'i'),
        letters("i32.rem_s"@) == (9nat, 'i', 'r', 'e'),
        letters("i32.eq"@) == (6nat, 'i', 'e', 'q'),
        letters("i32.ne"@) == (6nat, 'i', 'n', 'e'),
        letters("i32.lt_s"@) == (8nat, 'i', 'l', 't'),
        letters("i32.gt_s"@) == (8nat, 'i', 'g', 't'),
        letters("i32.le_s"@) == (8nat, 'i', 'l', 'e'),
        letters("i32.ge_s"@) == (8nat, 'i', 'g', 'e'),
        letters("f64.add"@) == (7nat, 'f', 'a', 'd'),
        letters("f64.sub"@) == (7nat, 'f', 's', 'u'),
        letters("f64.mul"@) == (7nat, 'f', 'm', 'u'),
        letters("f64.div"@) == (7nat, 'f', 'd', 'i'),
        letters("f64.eq"@) == (6nat, 'f', 'e', 'q'),
        letters("f64.lt"@) == (6nat, 'f', 'l', 't'),
        letters("f64.sqrt"@) == (8nat, 'f', 's', 'q'),
{
    reveal_strlit("i32.add");
    reveal_strlit("i32.sub");
    reveal_strlit("i32.mul");
    reveal_strlit("i32.div_s");
    reveal_strlit("i32.rem_s");
    reveal_strlit("i32.eq");
    reveal_strlit("i32.ne");
    reveal_strlit("i32.lt_s");
    reveal_strlit("i32.gt_s");
    reveal_strlit("i32.le_s");
    reveal_strlit("i32.ge_s");
    reveal_strlit("f64.add");
    reveal_strlit("f64.sub");
    reveal_strlit("f64.mul");
    reveal_strlit("f64.div");
    reveal_strlit("f64.eq");
    reveal_strlit("f64.lt");
    reveal_strlit("f64.sqrt");
}

/// An `Int` is its own word.
proof fn lemma_wrapped(n: int)
    requires
        is_int(n),
    ensures
        wrapped(n) == n,
{
}

/// The instruction that an intrinsic is inlined to computes what the intrinsic means:
/// it takes the arguments from the stack and leaves the result there.
pub proof fn instructions_compute_their_intrinsics(
    m: Model,
    name: Seq<char>,
    args: Seq<Value>,
    stack: Seq<Cell>,
)
    requires
        is_instruction(name),
        operate(m, name, args) is Some,
    ensures
        match inlined(name) {
            Inlined::Plain(text) => step(m, text, stack + cells(args)) == Some(
                stack.push(cell(operate(m, name, args)->Some_0)),
            ),
            _ => false,
        },
{
    names_differ();
    lemma_instructions_differ();
    let all = stack + cells(args);
    if args.len() == 1 {
        assert(all.last() == cell(args[0]));
        assert(all.drop_last() =~= stack);
    } else if args.len() == 2 {
        assert(all.last() == cell(args[1]));
        assert(all[all.len() - 2] == cell(args[0]));
        assert(all.drop_last().drop_last() =~= stack);
        if let (Value::Int(a), Value::Int(b)) = (args[0], args[1]) {
            if let Some(n) = arithmetic(name, a, b) {
                lemma_wrapped(n);
            }
        }
    }
}

/// On words the instructions of `i32_add`, `i32_sub` and `i32_mul` compute the sum, the
/// difference and the product even where these are no `Int`: what they leave is the
/// `Int` with the same word.
pub proof fn overflow_wraps(m: Model, name: Seq<char>, a: int, b: int)
    requires
        name == "i32_add"@ || name == "i32_sub"@ || name == "i32_mul"@,
    ensures
        match inlined(name) {
            Inlined::Plain(text) => step(m, text, seq![Cell::I32(a), Cell::I32(b)]) == Some(
                seq![Cell::I32(wrapped(arithmetic(name, a, b)->Some_0))],
            ),
            _ => false,
        },
{
    names_differ();
    lemma_instructions_differ();
    let s = seq![Cell::I32(a), Cell::I32(b)];
    assert(s.drop_last().drop_last().push(Cell::I32(wrapped(arithmetic(name, a, b)->Some_0)))
        =~= seq![Cell::I32(wrapped(arithmetic(name, a, b)->Some_0))]);
}

/// The instruction of an operator on `Int` or `Float` computes what the operator means.
pub proof fn instructions_compute_their_operators(
    m: Model,
    op: BinaryOp,
    a: Value,
    b: Value,
    stack: Seq<Cell>,
)
    requires
        apply(m, op, a, b) is Some,
        op is Add || op is Sub || op is Mul || op is Div || op is Rem || op is Eq || op is Lt,
        a is Int || a is Float,
    ensures
        match binary_op(
            op,
            if a is Int {
                WasmTy::I32
            } else {
                WasmTy::F64
            },
        ) {
            Some(text) => step(m, text, stack.push(cell(a)).push(cell(b))) == Some(
                stack.push(cell(apply(m, op, a, b)->Some_0)),
            ),
            None => false,
        },
{
    lemma_instructions_differ();
    let all = stack.push(cell(a)).push(cell(b));
    assert(all.drop_last().drop_last() =~= stack);
    if let (Value::Int(x), Value::Int(y)) = (a, b) {
        if is_int(x + y) {
            lemma_wrapped(x + y);
        }
        if is_int(x - y) {
            lemma_wrapped(x - y);
        }
        if is_int(x * y) {
            lemma_wrapped(x * y);
        }
    }
}

} // verus!
