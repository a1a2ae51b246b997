//! Reference counting: retain/release insertion.
//!
//! [`insert_rc_ops`] rewrites a lowered program so every heap value is
//! reference-counted: `Retain` in owned positions, `Release` at scope exits.
//! The wasm backend runs it after lowering and the tail-call rewrite; backends
//! that reclaim by other means never invoke it and treat the nodes as
//! transparent.
//!
//! ## Ownership convention (owned arguments)
//!
//! Every heap-typed expression evaluates to an *owned* (+1) reference. The one
//! exception is a bare variable, which is a *borrow* of a binding that strictly
//! outlives it; the pass wraps it in `retain` only in owned positions: call and
//! tail-call arguments, constructor fields (enum payload, record fields, array
//! elements, `array_push`'s element), the thrown value, a `let`'s right-hand
//! side, and every tail (returned) value. A function owns its heap parameters
//! and releases them on every exit. Borrowed positions (intrinsic and platform
//! arguments, scrutinees, guards, conditions, operands) read the value in
//! place; a heap operand there that is not a variable is bound to a fresh `$rc`
//! temporary released right after its consumer.
//!
//! Owned arguments are forced by self tail calls: once such a call becomes a
//! jump, no caller-side release site exists, so borrowed arguments would
//! accumulate obligations across iterations. With owned arguments the jump
//! transfers ownership into the next iteration's parameters after the current
//! frame's bindings are released.

use vstd::prelude::*;

use crate::ir::{FnNode, IrFunction, IrProgram};
use crate::rc::elide::{elide_moves_fn, elided_body};
use crate::rc::insert::{own_body, Cx, Rewritten};
use crate::rc::rename::{bind_params, rename, Env, Renamed, Renamer, Suffixes};

pub mod absent;
pub mod apart;
pub mod balance;
pub mod count;
pub mod elide;
pub mod fresh;
pub mod insert;
pub mod keep;
pub mod kept;
pub mod laws;
pub mod mirror;
pub mod moves;
pub mod once;
pub mod owned;
pub mod paired;
pub mod place;
pub mod rename;
pub mod settle;
pub mod spent;
pub mod steady;
pub mod thin;

verus! {

/// A function with its binders renamed apart.
pub open spec fn rename_fn(used: Suffixes, f: FnNode) -> Renamed<FnNode> {
    let b = bind_params(used, Seq::empty(), f.params);
    let r = rename(b.used, b.scope, f.body);
    Renamed {
        used: r.used,
        to: FnNode {
            name: f.name,
            params: b.binds,
            ret: f.ret,
            throws: f.throws,
            effects: f.effects,
            body: r.to,
        },
    }
}

/// The functions of a program with their binders renamed apart, in order.
pub open spec fn rename_fns(used: Suffixes, p: Seq<FnNode>) -> Renamed<Seq<FnNode>>
    decreases p.len(),
{
    if p.len() == 0 {
        Renamed { used, to: Seq::empty() }
    } else {
        let init = rename_fns(used, p.drop_last());
        let last = rename_fn(init.used, p.last());
        Renamed { used: last.used, to: init.to.push(last.to) }
    }
}

/// A function with retains and releases, its last uses turned into moves.
pub open spec fn manage_fn(n: u64, f: FnNode) -> Rewritten<FnNode> {
    let b = own_body(n, f.params, f.body);
    Rewritten {
        next: b.next,
        to: FnNode {
            name: f.name,
            params: f.params,
            ret: f.ret,
            throws: f.throws,
            effects: f.effects,
            body: elided_body(f.params, b.to),
        },
    }
}

/// The functions of a program with retains and releases, in order.
pub open spec fn manage_fns(n: u64, p: Seq<FnNode>) -> Rewritten<Seq<FnNode>>
    decreases p.len(),
{
    if p.len() == 0 {
        Rewritten { next: n, to: Seq::empty() }
    } else {
        let init = manage_fns(n, p.drop_last());
        let last = manage_fn(init.next, p.last());
        Rewritten { next: last.next, to: init.to.push(last.to) }
    }
}

/// A program whose heap values are reference-counted.
pub open spec fn managed(p: Seq<FnNode>) -> Seq<FnNode> {
    manage_fns(0, rename_fns(Map::empty(), p).to).to
}

fn rename_one(renamer: &mut Renamer, f: IrFunction) -> (r: IrFunction)
    ensures
        r@ == rename_fn(old(renamer)@, f@).to,
        final(renamer)@ == rename_fn(old(renamer)@, f@).used,
{
    let mut env = Env::new();
    let params = renamer.params(f.params, &mut env);
    let body = renamer.expr(f.body, &mut env);
    IrFunction { name: f.name, params, ret: f.ret, throws: f.throws, effects: f.effects, body }
}

fn manage_one(cx: &mut Cx, f: IrFunction) -> (r: IrFunction)
    ensures
        r@ == manage_fn(old(cx).counter, f@).to,
        final(cx).counter == manage_fn(old(cx).counter, f@).next,
{
    let body = cx.fn_body(&f.params, f.body);
    let body = elide_moves_fn(&f.params, body);
    IrFunction {
        name: f.name,
        params: f.params,
        ret: f.ret,
        throws: f.throws,
        effects: f.effects,
        body,
    }
}

/// What a list of functions says.
pub open spec fn fn_nodes(s: Seq<IrFunction>) -> Seq<FnNode> {
    s.map_values(|f: IrFunction| f@)
}

fn rename_all_fns(functions: Vec<IrFunction>) -> (r: Vec<IrFunction>)
    ensures
        fn_nodes(r@) == rename_fns(Map::empty(), fn_nodes(functions@)).to,
{
    let ghost all = fn_nodes(functions@);
    let ghost items = functions@;
    let mut renamer = Renamer::new();
    let mut out: Vec<IrFunction> = Vec::new();
    assert(fn_nodes(out@) =~= rename_fns(Map::empty(), all.take(0)).to);
    for f in iter: functions
        invariant
            iter.seq() == items,
            all == fn_nodes(items),
            fn_nodes(out@) == rename_fns(Map::empty(), all.take(iter.index() as int)).to,
            renamer@ == rename_fns(Map::empty(), all.take(iter.index() as int)).used,
    {
        let ghost i = iter.index() as int;
        let ghost out0 = out@;
        proof {
            assert(all.take(i + 1).drop_last() =~= all.take(i));
            assert(all.take(i + 1).last() == items[i]@);
        }
        let f = rename_one(&mut renamer, f);
        out.push(f);
        assert(fn_nodes(out@) =~= fn_nodes(out0).push(f@));
    }
    assert(all.take(all.len() as int) =~= all);
    out
}

fn manage_all_fns(functions: Vec<IrFunction>) -> (r: Vec<IrFunction>)
    ensures
        fn_nodes(r@) == manage_fns(0, fn_nodes(functions@)).to,
{
    let ghost all = fn_nodes(functions@);
    let ghost items = functions@;
    let mut cx = Cx::new();
    let mut out: Vec<IrFunction> = Vec::new();
    assert(fn_nodes(out@) =~= manage_fns(0, all.take(0)).to);
    for f in iter: functions
        invariant
            iter.seq() == items,
            all == fn_nodes(items),
            fn_nodes(out@) == manage_fns(0, all.take(iter.index() as int)).to,
            cx.counter == manage_fns(0, all.take(iter.index() as int)).next,
    {
        let ghost i = iter.index() as int;
        let ghost out0 = out@;
        proof {
            assert(all.take(i + 1).drop_last() =~= all.take(i));
            assert(all.take(i + 1).last() == items[i]@);
        }
        let f = manage_one(&mut cx, f);
        out.push(f);
        assert(fn_nodes(out@) =~= fn_nodes(out0).push(f@));
    }
    assert(all.take(all.len() as int) =~= all);
    out
}

/// Inserts retain/release across the program, then elides last-use
/// retain/release pairs (moves). `Retain` and `Release` nodes that are already
/// there stay as they are.
pub fn insert_rc_ops(program: &mut IrProgram)
    ensures
        final(program)@ == managed(old(program)@),
{
    let mut functions: Vec<IrFunction> = Vec::new();
    std::mem::swap(&mut functions, &mut program.functions);
    let functions = rename_all_fns(functions);
    program.functions = manage_all_fns(functions);
    assert(program@ == fn_nodes(program.functions@));
    assert(old(program)@ == fn_nodes(old(program).functions@));
}

} // verus!
