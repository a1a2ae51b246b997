//! Imported functions that the program does not reach are not emitted.
//!
//! The root's own functions are always kept. Trait dispatch and generics have
//! been resolved to references to concrete functions, so what a program reaches
//! is what its references name.

use vstd::prelude::*;

use crate::ir::{FnNode, IrExpr, IrFunction, IrProgram, Node};
use crate::ir_walk::{preorder, refs, walk};
use crate::strings::{contains_name, same, texts};
use crate::tail::refers_to;

verus! {

/// Whether an expression refers to the function called `name`.
pub open spec fn mentions(e: Node, name: Seq<char>) -> bool {
    exists|k: int| 0 <= k < preorder(e).len() && refers_to(#[trigger] preorder(e)[k], name)
}

/// Whether function `i` is the one that its name refers to: the last so called.
pub open spec fn is_referent(p: Seq<FnNode>, i: int) -> bool {
    0 <= i < p.len() && forall|k: int| i < k < p.len() ==> (#[trigger] p[k]).name != p[i].name
}

/// Whether the program reaches function `i` in at most `n` steps.
pub open spec fn reaches_in(p: Seq<FnNode>, roots: Seq<Seq<char>>, i: int, n: nat) -> bool
    decreases n,
{
    if n == 0 {
        roots.contains(p[i].name)
    } else {
        reaches_in(p, roots, i, (n - 1) as nat) || exists|k: int|
            #[trigger] is_referent(p, k) && reaches_in(p, roots, k, (n - 1) as nat) && mentions(
                p[k].body,
                p[i].name,
            )
    }
}

/// Whether the program reaches function `i`: a root function is called so, or a
/// reached one refers to it.
pub open spec fn reaches(p: Seq<FnNode>, roots: Seq<Seq<char>>, i: int) -> bool {
    exists|n: nat| reaches_in(p, roots, i, n)
}

/// The first `n` functions without those that are not reached.
pub open spec fn pruned_first(p: Seq<FnNode>, roots: Seq<Seq<char>>, n: nat) -> Seq<FnNode>
    decreases n,
{
    if n == 0 || n > p.len() {
        Seq::empty()
    } else {
        let before = pruned_first(p, roots, (n - 1) as nat);
        if reaches(p, roots, n - 1) {
            before.push(p[n - 1])
        } else {
            before
        }
    }
}

/// The functions that are reached, in order.
pub open spec fn pruned(p: Seq<FnNode>, roots: Seq<Seq<char>>) -> Seq<FnNode> {
    pruned_first(p, roots, p.len())
}

/// Every root function is kept.
pub proof fn roots_are_kept(p: Seq<FnNode>, roots: Seq<Seq<char>>, i: int)
    requires
        0 <= i < p.len(),
        roots.contains(p[i].name),
    ensures
        pruned(p, roots).contains(p[i]),
{
    assert(reaches_in(p, roots, i, 0));
    reached_are_kept(p, roots, i, p.len());
}

/// Whatever a kept function refers to is kept with it.
pub proof fn references_are_kept(p: Seq<FnNode>, roots: Seq<Seq<char>>, i: int, k: int)
    requires
        0 <= i < p.len(),
        is_referent(p, k),
        reaches(p, roots, k),
        mentions(p[k].body, p[i].name),
    ensures
        pruned(p, roots).contains(p[i]),
{
    let n = choose|n: nat| reaches_in(p, roots, k, n);
    assert(reaches_in(p, roots, i, n + 1));
    reached_are_kept(p, roots, i, p.len());
}

proof fn reached_are_kept(p: Seq<FnNode>, roots: Seq<Seq<char>>, i: int, n: nat)
    requires
        0 <= i < n <= p.len(),
        reaches(p, roots, i),
    ensures
        pruned_first(p, roots, n).contains(p[i]),
    decreases n,
{
    let before = pruned_first(p, roots, (n - 1) as nat);
    let all = pruned_first(p, roots, n);
    if i < n - 1 {
        reached_are_kept(p, roots, i, (n - 1) as nat);
        let j = choose|j: int| 0 <= j < before.len() && before[j] == p[i];
        assert(all[j] == p[i]);
    } else {
        assert(all.last() == p[i]);
    }
}

/// The number of functions that are not marked.
spec fn unmarked(s: Seq<bool>) -> nat
    decreases s.len(),
{
    if s.len() == 0 {
        0
    } else {
        unmarked(s.drop_last()) + if s.last() {
            0nat
        } else {
            1nat
        }
    }
}

proof fn lemma_mark(s: Seq<bool>, i: int)
    requires
        0 <= i < s.len(),
        !s[i],
    ensures
        unmarked(s.update(i, true)) < unmarked(s),
    decreases s.len(),
{
    let t = s.update(i, true);
    if i == s.len() - 1 {
        assert(t.drop_last() =~= s.drop_last());
    } else {
        assert(t.drop_last() =~= s.drop_last().update(i, true));
        lemma_mark(s.drop_last(), i);
    }
}

/// Whether only reached functions are marked.
spec fn sound(p: Seq<FnNode>, roots: Seq<Seq<char>>, marks: Seq<bool>) -> bool {
    marks.len() == p.len() && forall|i: int|
        0 <= i < marks.len() && #[trigger] marks[i] ==> reaches(p, roots, i)
}

/// Whether what the first `n` functions refer to is marked where they are.
spec fn closed(p: Seq<FnNode>, marks: Seq<bool>, n: int) -> bool {
    forall|k: int, i: int|
        0 <= k < n && #[trigger] is_referent(p, k) && marks[k] && 0 <= i < p.len() && mentions(
            p[k].body,
            (#[trigger] p[i]).name,
        ) ==> marks[i]
}

proof fn lemma_complete(p: Seq<FnNode>, roots: Seq<Seq<char>>, marks: Seq<bool>, i: int, n: nat)
    requires
        marks.len() == p.len(),
        closed(p, marks, p.len() as int),
        forall|k: int| 0 <= k < p.len() && roots.contains((#[trigger] p[k]).name) ==> marks[k],
        0 <= i < p.len(),
        reaches_in(p, roots, i, n),
    ensures
        marks[i],
    decreases n,
{
    if n > 0 {
        let m = (n - 1) as nat;
        if reaches_in(p, roots, i, m) {
            lemma_complete(p, roots, marks, i, m);
        } else {
            let k = choose|k: int|
                #[trigger] is_referent(p, k) && reaches_in(p, roots, k, m) && mentions(
                    p[k].body,
                    p[i].name,
                );
            lemma_complete(p, roots, marks, k, m);
        }
    }
}

fn is_last_named(program: &IrProgram, i: usize) -> (r: bool)
    requires
        i < program.functions@.len(),
    ensures
        r == is_referent(program@, i as int),
{
    let ghost p = program@;
    let mut k: usize = program.functions.len();
    while k > i + 1
        invariant
            i < k <= program.functions.len(),
            p == program@,
            forall|j: int| k <= j < p.len() ==> (#[trigger] p[j]).name != p[i as int].name,
        decreases k,
    {
        k -= 1;
        if same(program.functions[k].name.as_str(), program.functions[i].name.as_str()) {
            assert(p[k as int].name == p[i as int].name);
            return false;
        }
    }
    true
}

/// Marks the functions called `name`, which the program reaches.
fn mark_named(program: &IrProgram, marks: &mut Vec<bool>, name: &str, Ghost(roots): Ghost<Seq<Seq<char>>>) -> (changed:
    bool)
    requires
        sound(program@, roots, old(marks)@),
        forall|i: int|
            0 <= i < program@.len() && (#[trigger] program@[i]).name == name@ ==> reaches(
                program@,
                roots,
                i,
            ),
    ensures
        sound(program@, roots, final(marks)@),
        !changed ==> final(marks)@ == old(marks)@,
        changed ==> unmarked(final(marks)@) < unmarked(old(marks)@),
        forall|i: int|
            0 <= i < program@.len() && (#[trigger] program@[i]).name == name@ ==> final(marks)@[i],
        forall|i: int| 0 <= i < program@.len() && old(marks)@[i] ==> #[trigger] final(marks)@[i],
{
    let ghost p = program@;
    let mut changed = false;
    let mut i: usize = 0;
    while i < program.functions.len()
        invariant
            i <= program.functions.len(),
            p == program@,
            marks@.len() == p.len(),
            sound(p, roots, marks@),
            forall|k: int|
                0 <= k < p.len() && (#[trigger] p[k]).name == name@ ==> reaches(p, roots, k),
            !changed ==> marks@ == old(marks)@,
            changed ==> unmarked(marks@) < unmarked(old(marks)@),
            forall|k: int| 0 <= k < i && (#[trigger] p[k]).name == name@ ==> marks@[k],
            forall|k: int| 0 <= k < p.len() && old(marks)@[k] ==> #[trigger] marks@[k],
        decreases program.functions.len() - i,
    {
        assert(p[i as int].name == program.functions@[i as int].name@);
        if !marks[i] && same(program.functions[i].name.as_str(), name) {
            proof {
                lemma_mark(marks@, i as int);
            }
            marks.set(i, true);
            changed = true;
        }
        i += 1;
    }
    changed
}

/// Marks what function `i` refers to, which the program reaches.
fn mark_from(program: &IrProgram, marks: &mut Vec<bool>, i: usize, Ghost(roots): Ghost<Seq<Seq<char>>>) -> (changed:
    bool)
    requires
        i < program.functions@.len(),
        sound(program@, roots, old(marks)@),
        is_referent(program@, i as int),
        old(marks)@[i as int],
    ensures
        sound(program@, roots, final(marks)@),
        !changed ==> final(marks)@ == old(marks)@,
        changed ==> unmarked(final(marks)@) < unmarked(old(marks)@),
        forall|k: int|
            0 <= k < program@.len() && mentions(
                program@[i as int].body,
                (#[trigger] program@[k]).name,
            ) ==> final(marks)@[k],
        forall|k: int| 0 <= k < program@.len() && old(marks)@[k] ==> #[trigger] final(marks)@[k],
{
    let ghost p = program@;
    let body = &program.functions[i].body;
    let all = walk(body);
    let ghost pre = preorder(body@);
    let mut changed = false;
    let mut j: usize = 0;
    proof {
        assert(refs(all@).len() == all@.len());
        assert(p[i as int].body == body@);
    }
    while j < all.len()
        invariant
            j <= all.len(),
            i < p.len(),
            p == program@,
            pre == preorder(body@),
            pre == refs(all@),
            pre.len() == all@.len(),
            p[i as int].body == body@,
            is_referent(p, i as int),
            marks@.len() == p.len(),
            marks@[i as int],
            sound(p, roots, marks@),
            !changed ==> marks@ == old(marks)@,
            changed ==> unmarked(marks@) < unmarked(old(marks)@),
            forall|m: int, k: int|
                0 <= m < j && 0 <= k < p.len() && refers_to(
                    #[trigger] pre[m],
                    (#[trigger] p[k]).name,
                ) ==> marks@[k],
            forall|k: int| 0 <= k < p.len() && old(marks)@[k] ==> #[trigger] marks@[k],
        decreases all.len() - j,
    {
        assert(pre[j as int] == all@[j as int]@);
        if let IrExpr::FunctionRef { name, .. } = all[j] {
            proof {
                assert forall|k: int|
                    0 <= k < p.len() && (#[trigger] p[k]).name == name@ implies reaches(
                    p,
                    roots,
                    k,
                ) by {
                    assert(reaches(p, roots, i as int));
                    let n = choose|n: nat| reaches_in(p, roots, i as int, n);
                    assert(refers_to(pre[j as int], p[k].name));
                    assert(mentions(p[i as int].body, p[k].name));
                    assert(reaches_in(p, roots, k, n + 1));
                }
            }
            if mark_named(program, marks, name.as_str(), Ghost(roots)) {
                changed = true;
            }
        }
        j += 1;
    }
    proof {
        assert forall|k: int|
            0 <= k < p.len() && mentions(p[i as int].body, (#[trigger] p[k]).name) implies marks@[k] by {
            let m = choose|m: int|
                0 <= m < pre.len() && refers_to(#[trigger] pre[m], p[k].name);
            assert(refers_to(pre[m], p[k].name));
        }
    }
    changed
}

/// Which functions the program reaches.
fn reached(program: &IrProgram, roots: &Vec<String>) -> (r: Vec<bool>)
    ensures
        r@.len() == program@.len(),
        forall|i: int|
            0 <= i < program@.len() ==> #[trigger] r@[i] == reaches(program@, texts(roots@), i),
{
    let ghost p = program@;
    let ghost names = texts(roots@);
    let n: usize = program.functions.len();
    let mut marks: Vec<bool> = Vec::new();
    let mut i: usize = 0;
    while i < n
        invariant
            i <= n,
            n == program.functions@.len(),
            p == program@,
            names == texts(roots@),
            marks@.len() == i,
            forall|k: int| 0 <= k < i ==> #[trigger] marks@[k] == names.contains(p[k].name),
        decreases n - i,
    {
        marks.push(contains_name(roots, program.functions[i].name.as_str()));
        i += 1;
    }
    proof {
        assert forall|k: int| 0 <= k < marks@.len() && #[trigger] marks@[k] implies reaches(
            p,
            names,
            k,
        ) by {
            assert(reaches_in(p, names, k, 0));
        }
    }
    let mut more = true;
    while more
        invariant
            n == program.functions@.len(),
            p == program@,
            names == texts(roots@),
            p.len() == n,
            sound(p, names, marks@),
            forall|k: int| 0 <= k < n && names.contains((#[trigger] p[k]).name) ==> marks@[k],
            !more ==> closed(p, marks@, n as int),
        decreases unmarked(marks@), (if more { 1int } else { 0int }),
    {
        let ghost start = marks@;
        more = false;
        let mut i: usize = 0;
        while i < n
            invariant
                i <= n,
                n == program.functions@.len(),
                p == program@,
                p.len() == n,
                sound(p, names, marks@),
                forall|k: int| 0 <= k < n && start[k] ==> #[trigger] marks@[k],
                !more ==> marks@ == start,
                more ==> unmarked(marks@) < unmarked(start),
                !more ==> closed(p, marks@, i as int),
            decreases n - i,
        {
            if marks[i] && is_last_named(program, i) {
                if mark_from(program, &mut marks, i, Ghost(names)) {
                    more = true;
                }
            }
            i += 1;
        }
    }
    proof {
        assert forall|k: int| 0 <= k < p.len() implies #[trigger] marks@[k] == reaches(
            p,
            names,
            k,
        ) by {
            if reaches(p, names, k) {
                let m = choose|m: nat| reaches_in(p, names, k, m);
                lemma_complete(p, names, marks@, k, m);
            }
        }
    }
    marks
}

/// Drops the functions that are neither roots nor reached from them.
pub fn prune_unreachable_imports(program: IrProgram, root_names: &Vec<String>) -> (r: IrProgram)
    ensures
        r@ == pruned(program@, texts(root_names@)),
{
    let ghost p = program@;
    let ghost roots = texts(root_names@);
    let ghost source = program.functions@;
    let marks = reached(&program, root_names);
    let mut out: Vec<IrFunction> = Vec::new();
    let n: usize = marks.len();
    let mut i: usize = 0;
    assert((IrProgram { functions: out })@ =~= Seq::<FnNode>::empty());
    for f in iter: program.functions
        invariant
            iter.seq() == source,
            i == iter.index(),
            n == source.len(),
            p.len() == source.len(),
            marks@.len() == p.len(),
            forall|k: int| 0 <= k < p.len() ==> (#[trigger] p[k]) == source[k]@,
            forall|k: int| 0 <= k < p.len() ==> #[trigger] marks@[k] == reaches(p, roots, k),
            (IrProgram { functions: out })@ == pruned_first(p, roots, i as nat),
    {
        let ghost before = (IrProgram { functions: out })@;
        if marks[i] {
            assert(p[i as int] == f@);
            out.push(f);
            assert((IrProgram { functions: out })@ =~= before.push(f@));
        }
        i += 1;
    }
    IrProgram { functions: out }
}

} // verus!
