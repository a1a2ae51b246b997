//! What becomes of references.
//!
//! Some positions keep the reference that is read in them: it is then no longer the
//! reader's to release. Every read in such a position has a reference of its own, so
//! that on every way through the scope of a binding there is one release more than
//! there are retains that nothing keeps.

use vstd::prelude::*;

use crate::ir::{node_ty, ArmNode, Node};
use crate::rc::insert::hands_on;
use crate::rc::moves::{
    arm_tally, catch_tally, retains, retains_all, retains_arm, retains_arms, tally,
};
use crate::rc::place::bare;
use crate::types::heap;

verus! {

/// Which operands of a node keep the reference that they evaluate to.
pub enum Hold {
    All,
    Second,
    Nothing,
}

/// Arguments of calls, elements of arrays, payloads of variants and fields of records
/// are kept, and so is the element that `array_push` adds. What other nodes read they
/// give back.
pub open spec fn hold_of(e: Node) -> Hold {
    match e {
        Node::Call { .. } => Hold::All,
        Node::TailSelfCall { .. } => Hold::All,
        Node::Array { .. } => Hold::All,
        Node::EnumValue { .. } => Hold::All,
        Node::RecordValue { .. } => Hold::All,
        Node::Intrinsic { name, .. } => if name == "array_push"@ {
            Hold::Second
        } else {
            Hold::Nothing
        },
        _ => Hold::Nothing,
    }
}

/// Whether operand `i` is kept.
pub open spec fn holds(h: Hold, i: int) -> bool {
    match h {
        Hold::All => true,
        Hold::Second => i == 1,
        Hold::Nothing => false,
    }
}

/// Whether what an operand reads is its own: it is kept, or no heap value comes of it.
pub open spec fn is_own(held: bool, e: Node) -> bool {
    held || !heap(node_ty(e))
}

/// How often `e` reads `x` as a heap value in a position that keeps the reference. With
/// `own`, what `e` evaluates to is kept. A binding keeps its value, a `throw` what it
/// throws, and `?` what it looks at. A condition is nothing that can be kept, and a
/// `match` gives back what it looks at, as a panic does a variable. A lambda borrows
/// what it captures.
pub open spec fn kept(e: Node, x: Seq<char>, own: bool) -> nat
    decreases e,
{
    match e {
        Node::Var { name, ty } => if own && name == x && heap(ty) {
            1
        } else {
            0
        },
        Node::Retain { value } => kept(*value, x, own),
        Node::Release { next, .. } => kept(*next, x, own),
        Node::Let { value, next, .. } => kept(*value, x, true) + kept(*next, x, own),
        Node::Throw { value } => kept(*value, x, true),
        Node::Question { value, .. } => kept(*value, x, true),
        Node::Call { callee, args, .. } => kept(*callee, x, false) + kept_all(hold_of(e), args, x),
        Node::Platform { args, .. } => kept_all(hold_of(e), args, x),
        Node::Intrinsic { args, .. } => kept_all(hold_of(e), args, x),
        Node::TailSelfCall { args, .. } => kept_all(hold_of(e), args, x),
        Node::Array { elems, .. } => kept_all(hold_of(e), elems, x),
        Node::EnumValue { payload, .. } => kept_all(hold_of(e), payload, x),
        Node::RecordValue { fields, .. } => kept_all(hold_of(e), fields, x),
        Node::FieldAccess { target, .. } => kept(*target, x, is_own(false, *target)),
        Node::CharFromCode(value) => kept(*value, x, is_own(false, *value)),
        Node::StringFromChar(value) => kept(*value, x, is_own(false, *value)),
        Node::Binary { left, right, .. } => kept(*left, x, is_own(false, *left)) + kept(
            *right,
            x,
            is_own(false, *right),
        ),
        Node::Concat { left, right } => kept(*left, x, is_own(false, *left)) + kept(
            *right,
            x,
            is_own(false, *right),
        ),
        Node::If { cond, then, els, .. } => kept(*cond, x, true) + kept(*then, x, own) + kept(
            *els,
            x,
            own,
        ),
        Node::Match { scrutinee, arms, .. } => kept(*scrutinee, x, false) + kept_arms(
            arms,
            x,
            own,
        ),
        Node::Try { body, arms, .. } => kept(*body, x, own) + kept_arms(arms, x, own),
        Node::Panic { message } => kept(*message, x, !(bare(*message) is Var)),
        _ => 0,
    }
}

/// [`kept`] in the operands of a node.
pub open spec fn kept_all(h: Hold, s: Seq<Node>, x: Seq<char>) -> nat
    decreases s,
{
    if s.len() == 0 {
        0
    } else {
        kept_all(h, s.drop_last(), x) + kept(s.last(), x, is_own(holds(h, s.len() - 1), s.last()))
    }
}

/// [`kept`] in an arm. A guard is nothing that can be kept.
pub open spec fn kept_arm(arm: ArmNode, x: Seq<char>, own: bool) -> nat
    decreases arm,
{
    match arm.guard {
        Some(guard) => kept(*guard, x, true) + kept(*arm.body, x, own),
        None => kept(*arm.body, x, own),
    }
}

/// [`kept`] in the arms of a list.
pub open spec fn kept_arms(s: Seq<ArmNode>, x: Seq<char>, own: bool) -> nat
    decreases s,
{
    if s.len() == 0 {
        0
    } else {
        kept_arms(s.drop_last(), x, own) + kept_arm(s.last(), x, own)
    }
}

/// [`kept`] on a way through `e`, whose value is kept.
pub open spec fn kept_on(e: Node, x: Seq<char>, p: Seq<nat>) -> nat
    decreases e,
{
    match e {
        Node::Let { name, value, next, .. } => match *value {
            Node::Try { body, arms, .. } => if hands_on(*next, name) {
                if p[0] == 0 {
                    kept(*value, x, true) + kept_on(*next, x, p.drop_first())
                } else {
                    kept(*body, x, true) + kept_on_catch(arms, x, p.drop_first())
                }
            } else {
                kept(*value, x, true) + kept_on(*next, x, p)
            },
            _ => kept(*value, x, true) + kept_on(*next, x, p),
        },
        Node::Release { next, .. } => kept_on(*next, x, p),
        Node::If { cond, then, els, .. } => kept(*cond, x, true) + if p[0] == 0 {
            kept_on(*then, x, p.drop_first())
        } else {
            kept_on(*els, x, p.drop_first())
        },
        Node::Match { scrutinee, arms, .. } => kept(*scrutinee, x, false) + if p[0] < arms.len() {
            kept_on_arm(arms[p[0] as int], x, p.drop_first())
        } else {
            0
        },
        Node::Try { body, arms, .. } => if p[0] == 0 {
            kept(e, x, true)
        } else {
            kept(*body, x, true) + kept_on_catch(arms, x, p.drop_first())
        },
        _ => kept(e, x, true),
    }
}

/// [`kept_on`] a way that jumps out of one of these catch arms.
pub open spec fn kept_on_catch(arms: Seq<ArmNode>, x: Seq<char>, p: Seq<nat>) -> nat
    decreases arms,
{
    if p[0] < arms.len() {
        kept_on_arm(arms[p[0] as int], x, p.drop_first())
    } else {
        0
    }
}

/// [`kept_on`] a way through the body of an arm.
pub open spec fn kept_on_arm(arm: ArmNode, x: Seq<char>, p: Seq<nat>) -> nat
    decreases arm,
{
    kept_on(*arm.body, x, p)
}

/// Whether an operand that is not its own is read in place: a variable or a literal.
pub open spec fn paired_operand(held: bool, e: Node, x: Seq<char>) -> bool
    decreases e, 1nat,
{
    if is_own(held, e) {
        paired(e, x)
    } else {
        e is Var || e is String
    }
}

/// Whether in `e`, whose value is kept, every kept read of `x` has a retain, and every
/// retain is that of a heap variable where the reference is kept.
pub open spec fn paired(e: Node, x: Seq<char>) -> bool
    decreases e, 0nat,
{
    match e {
        Node::Var { name, ty } => name != x || !heap(ty),
        Node::Retain { value } => *value is Var && heap(node_ty(*value)),
        Node::Release { next, .. } => paired(*next, x),
        Node::Let { value, next, .. } => paired(*value, x) && paired(*next, x),
        Node::Fn { body, .. } => paired(*body, x),
        Node::Throw { value } => paired(*value, x),
        Node::Question { value, .. } => paired(*value, x),
        Node::Call { callee, args, .. } => (*callee is Var || *callee is FunctionRef)
            && paired_all(hold_of(e), args, x),
        Node::Platform { args, .. } => paired_all(hold_of(e), args, x),
        Node::Intrinsic { args, .. } => paired_all(hold_of(e), args, x),
        Node::TailSelfCall { args, .. } => paired_all(hold_of(e), args, x),
        Node::Array { elems, .. } => paired_all(hold_of(e), elems, x),
        Node::EnumValue { payload, .. } => paired_all(hold_of(e), payload, x),
        Node::RecordValue { fields, .. } => paired_all(hold_of(e), fields, x),
        Node::FieldAccess { target, .. } => paired_operand(false, *target, x),
        Node::CharFromCode(value) => paired_operand(false, *value, x),
        Node::StringFromChar(value) => paired_operand(false, *value, x),
        Node::Binary { left, right, .. } => paired_operand(false, *left, x) && paired_operand(
            false,
            *right,
            x,
        ),
        Node::Concat { left, right } => paired_operand(false, *left, x) && paired_operand(
            false,
            *right,
            x,
        ),
        Node::If { cond, then, els, .. } => paired(*cond, x) && paired(*then, x) && paired(*els, x),
        Node::Match { scrutinee, arms, .. } => *scrutinee is Var && paired_arms(arms, x),
        Node::Try { body, arms, .. } => paired(*body, x) && paired_arms(arms, x),
        Node::Panic { message } => *message is Var || (!(bare(*message) is Var) && paired(
            *message,
            x,
        )),
        _ => true,
    }
}

/// [`paired`], of the operands of a node.
pub open spec fn paired_all(h: Hold, s: Seq<Node>, x: Seq<char>) -> bool
    decreases s, 0nat,
{
    s.len() == 0 || (paired_all(h, s.drop_last(), x) && paired_operand(
        holds(h, s.len() - 1),
        s.last(),
        x,
    ))
}

/// [`paired`], of an arm.
pub open spec fn paired_arm(arm: ArmNode, x: Seq<char>) -> bool
    decreases arm, 0nat,
{
    (match arm.guard {
        Some(guard) => paired(*guard, x),
        None => true,
    }) && paired(*arm.body, x)
}

/// [`paired`], of the arms of a list.
pub open spec fn paired_arms(s: Seq<ArmNode>, x: Seq<char>) -> bool
    decreases s, 0nat,
{
    s.len() == 0 || (paired_arms(s.drop_last(), x) && paired_arm(s.last(), x))
}

proof fn lemma_operand(held: bool, e: Node, x: Seq<char>)
    requires
        paired_operand(held, e, x),
    ensures
        kept(e, x, is_own(held, e)) == retains(e, x),
    decreases e, 1nat,
{
    if is_own(held, e) {
        paired_reads_are_retained(e, x);
    }
}

/// There are as many retains as kept reads.
pub proof fn paired_reads_are_retained(e: Node, x: Seq<char>)
    requires
        paired(e, x),
    ensures
        kept(e, x, true) == retains(e, x),
    decreases e, 0nat,
{
    match e {
        Node::Retain { value } => {
            reveal_with_fuel(kept, 2);
            reveal_with_fuel(crate::rc::moves::reads, 2);
            reveal_with_fuel(retains, 2);
        },
        Node::Release { next, .. } => paired_reads_are_retained(*next, x),
        Node::Let { value, next, .. } => {
            paired_reads_are_retained(*value, x);
            paired_reads_are_retained(*next, x);
        },
        Node::Throw { value } => paired_reads_are_retained(*value, x),
        Node::Question { value, .. } => paired_reads_are_retained(*value, x),
        Node::Call { callee, args, .. } => {
            lemma_operands(hold_of(e), args, x);
            assert(kept(*callee, x, false) == 0 && retains(*callee, x) == 0);
        },
        Node::Platform { args, .. } => lemma_operands(hold_of(e), args, x),
        Node::Intrinsic { args, .. } => lemma_operands(hold_of(e), args, x),
        Node::TailSelfCall { args, .. } => lemma_operands(hold_of(e), args, x),
        Node::Array { elems, .. } => lemma_operands(hold_of(e), elems, x),
        Node::EnumValue { payload, .. } => lemma_operands(hold_of(e), payload, x),
        Node::RecordValue { fields, .. } => lemma_operands(hold_of(e), fields, x),
        Node::FieldAccess { target, .. } => lemma_operand(false, *target, x),
        Node::CharFromCode(value) => lemma_operand(false, *value, x),
        Node::StringFromChar(value) => lemma_operand(false, *value, x),
        Node::Binary { left, right, .. } => {
            lemma_operand(false, *left, x);
            lemma_operand(false, *right, x);
        },
        Node::Concat { left, right } => {
            lemma_operand(false, *left, x);
            lemma_operand(false, *right, x);
        },
        Node::If { cond, then, els, .. } => {
            paired_reads_are_retained(*cond, x);
            paired_reads_are_retained(*then, x);
            paired_reads_are_retained(*els, x);
        },
        Node::Match { scrutinee, arms, .. } => {
            lemma_arms(arms, x);
            assert(kept(*scrutinee, x, false) == 0 && retains(*scrutinee, x) == 0);
        },
        Node::Try { body, arms, .. } => {
            paired_reads_are_retained(*body, x);
            lemma_arms(arms, x);
        },
        Node::Panic { message } => {
            if *message is Var {
                assert(bare(*message) == *message);
                assert(kept(*message, x, false) == 0 && retains(*message, x) == 0);
            } else {
                paired_reads_are_retained(*message, x);
            }
        },
        _ => {},
    }
}

proof fn lemma_operands(h: Hold, s: Seq<Node>, x: Seq<char>)
    requires
        paired_all(h, s, x),
    ensures
        kept_all(h, s, x) == retains_all(s, x),
    decreases s, 0nat,
{
    if s.len() > 0 {
        lemma_operands(h, s.drop_last(), x);
        lemma_operand(holds(h, s.len() - 1), s.last(), x);
    }
}

proof fn lemma_arm(arm: ArmNode, x: Seq<char>)
    requires
        paired_arm(arm, x),
    ensures
        kept_arm(arm, x, true) == retains_arm(arm, x),
    decreases arm, 0nat,
{
    if let Some(guard) = arm.guard {
        paired_reads_are_retained(*guard, x);
    }
    paired_reads_are_retained(*arm.body, x);
}

proof fn lemma_arms(s: Seq<ArmNode>, x: Seq<char>)
    requires
        paired_arms(s, x),
    ensures
        kept_arms(s, x, true) == retains_arms(s, x),
    decreases s, 0nat,
{
    if s.len() > 0 {
        lemma_arms(s.drop_last(), x);
        lemma_arm(s.last(), x);
    }
}

proof fn lemma_arms_at(s: Seq<ArmNode>, x: Seq<char>, i: int)
    requires
        paired_arms(s, x),
        0 <= i < s.len(),
    ensures
        paired_arm(s[i], x),
    decreases s.len(),
{
    if i < s.len() - 1 {
        lemma_arms_at(s.drop_last(), x, i);
    }
}

/// On every way there are as many retains as kept reads.
pub proof fn paired_reads_are_retained_on_the_way(e: Node, x: Seq<char>, p: Seq<nat>)
    requires
        paired(e, x),
    ensures
        kept_on(e, x, p) == tally(e, x, p).retains,
    decreases e,
{
    match e {
        Node::Let { name, value, next, .. } => {
            paired_reads_are_retained(*value, x);
            match *value {
                Node::Try { body, arms, .. } => {
                    paired_reads_are_retained(*body, x);
                    if hands_on(*next, name) {
                        if p[0] == 0 {
                            paired_reads_are_retained_on_the_way(*next, x, p.drop_first());
                        } else {
                            lemma_catch_way(arms, x, p.drop_first());
                        }
                    } else {
                        paired_reads_are_retained_on_the_way(*next, x, p);
                    }
                },
                _ => paired_reads_are_retained_on_the_way(*next, x, p),
            }
        },
        Node::Release { next, .. } => paired_reads_are_retained_on_the_way(*next, x, p),
        Node::If { cond, then, els, .. } => {
            paired_reads_are_retained(*cond, x);
            paired_reads_are_retained_on_the_way(*then, x, p.drop_first());
            paired_reads_are_retained_on_the_way(*els, x, p.drop_first());
        },
        Node::Match { scrutinee, arms, .. } => {
            assert(kept(*scrutinee, x, false) == 0 && retains(*scrutinee, x) == 0);
            if p[0] < arms.len() {
                lemma_arms_at(arms, x, p[0] as int);
                lemma_arm_way(arms[p[0] as int], x, p.drop_first());
            }
        },
        Node::Try { body, arms, .. } => {
            paired_reads_are_retained(e, x);
            paired_reads_are_retained(*body, x);
            lemma_catch_way(arms, x, p.drop_first());
        },
        _ => paired_reads_are_retained(e, x),
    }
}

proof fn lemma_catch_way(arms: Seq<ArmNode>, x: Seq<char>, p: Seq<nat>)
    requires
        paired_arms(arms, x),
    ensures
        kept_on_catch(arms, x, p) == catch_tally(arms, x, p).retains,
    decreases arms,
{
    if p[0] < arms.len() {
        lemma_arms_at(arms, x, p[0] as int);
        lemma_arm_way(arms[p[0] as int], x, p.drop_first());
    }
}

proof fn lemma_arm_way(arm: ArmNode, x: Seq<char>, p: Seq<nat>)
    requires
        paired_arm(arm, x),
    ensures
        kept_on_arm(arm, x, p) == arm_tally(arm, x, p).retains,
    decreases arm,
{
    paired_reads_are_retained_on_the_way(*arm.body, x, p);
}

} // verus!
