//! The executable reference-count pass, verified against the model in
//! `analysis`: it removes `IncrementRc` and `DecrementRc` instructions in
//! matched pairs as long as no `ArraySet` on an array of the same type
//! occurs anywhere in the function.
//!
//! The pass is very conservative on purpose: the `ArraySet` need not be
//! to the same array, because the tracked array may alias another one
//! (function parameters, or an array loaded from a reference).

use vstd::prelude::*;

use crate::analysis::{
    array_set_of_type, erase_ids, first_match, initial_pending, lemma_block_no_duplicates,
    lemma_erase_contains, lemma_erase_empty, lemma_erase_no_duplicates, lemma_first_match,
    lemma_initial_pending_props, lemma_mutated_before_block_end, lemma_mutated_before_full,
    lemma_mutated_before_none, lemma_mutated_before_step, lemma_tainted_pending_props,
    matcher_after, mutated_before, pass_post, pending_of, removal_seq, tainted_pending,
    RcInstruction,
};
use crate::ir::{Function, Instruction, InstructionId, Ssa, TypeId, ValueId};

verus! {

/// Analysis state for one function's run: the `IncrementRc` instructions
/// of the entry block without a matched `DecrementRc` yet, in encounter
/// order. Each record carries the type's taint flag once the mutation
/// scan has run. The state is created, consumed and dropped within one
/// call of `Function::remove_paired_rc`.
pub struct Context {
    pub inc_rcs: Vec<RcInstruction>,
}

/// Whether some parameter's type contains an array. `DecrementRc` is only
/// ever emitted for parameters, so a function without an array parameter
/// holds no removable pair and is skipped; the skip is purely a speed-up.
pub fn contains_array_parameter(function: &mut Function) -> (r: bool)
    requires
        old(function).wf(),
    ensures
        *final(function) == *old(function),
        r == old(function).has_array_parameter(),
{
    let n = function.parameters.len();
    let mut p: usize = 0;
    while p < n
        invariant
            *function == *old(function),
            function.wf(),
            n == function.parameters@.len(),
            p <= n,
            forall|q: int|
                0 <= q < p
                    ==> !function.type_contains_array@[function.value_types@[#[trigger] function.parameters@[q] as int] as int],
        decreases n - p,
    {
        let v = function.parameters[p];
        let t = function.value_types[v];
        if function.type_contains_array[t] {
            assert(function.has_array_parameter());
            return true;
        }
        p += 1;
    }
    assert(!function.has_array_parameter());
    false
}

/// Raises the flag of every pending record whose array has type `t`,
/// leaving everything else in place.
fn mark_mutated(inc_rcs: &mut Vec<RcInstruction>, function: &Function, t: TypeId)
    requires
        function.wf(),
        forall|p: int|
            0 <= p < old(inc_rcs)@.len() ==> (#[trigger] old(inc_rcs)@[p]).array
                < function.value_types@.len(),
    ensures
        final(inc_rcs)@.len() == old(inc_rcs)@.len(),
        forall|p: int|
            0 <= p < old(inc_rcs)@.len() ==> {
                let rc0 = #[trigger] old(inc_rcs)@[p];
                let rc = final(inc_rcs)@[p];
                &&& rc.id == rc0.id
                &&& rc.array == rc0.array
                &&& rc.possibly_mutated == (rc0.possibly_mutated || function.type_of(rc0.array)
                    == t)
            },
{
    let n = inc_rcs.len();
    let mut p: usize = 0;
    while p < n
        invariant
            function.wf(),
            n == inc_rcs@.len(),
            n == old(inc_rcs)@.len(),
            p <= n,
            forall|q: int| p <= q < n ==> #[trigger] inc_rcs@[q] == old(inc_rcs)@[q],
            forall|q: int|
                0 <= q < old(inc_rcs)@.len() ==> (#[trigger] old(inc_rcs)@[q]).array
                    < function.value_types@.len(),
            forall|q: int|
                0 <= q < p ==> {
                    let rc0 = #[trigger] old(inc_rcs)@[q];
                    let rc = inc_rcs@[q];
                    &&& rc.id == rc0.id
                    &&& rc.array == rc0.array
                    &&& rc.possibly_mutated == (rc0.possibly_mutated || function.type_of(rc0.array)
                        == t)
                },
        decreases n - p,
    {
        let rc = inc_rcs[p];
        if function.value_types[rc.array] == t {
            inc_rcs[p] = RcInstruction { id: rc.id, array: rc.array, possibly_mutated: true };
        }
        p += 1;
    }
}

/// Finds and pops the pending record for exactly the given array value,
/// if there is one: the first record of that value, in insertion order.
pub fn pop_rc_for(value: ValueId, inc_rcs: &mut Vec<RcInstruction>) -> (r: Option<RcInstruction>)
    ensures
        first_match(old(inc_rcs)@, value) >= 0 ==> r == Some(
            old(inc_rcs)@[first_match(old(inc_rcs)@, value)],
        ) && final(inc_rcs)@ == old(inc_rcs)@.remove(first_match(old(inc_rcs)@, value)),
        first_match(old(inc_rcs)@, value) < 0 ==> r == None::<RcInstruction> && final(inc_rcs)@
            == old(inc_rcs)@,
{
    let n = inc_rcs.len();
    let mut i: usize = 0;
    while i < n
        invariant
            n == inc_rcs@.len(),
            inc_rcs@ == old(inc_rcs)@,
            i <= n,
            forall|j: int| 0 <= j < i ==> (#[trigger] inc_rcs@[j]).array != value,
        decreases n - i,
    {
        let rc = inc_rcs[i];
        if rc.array == value {
            proof {
                lemma_first_match(inc_rcs@, value);
                let fm = first_match(inc_rcs@, value);
                assert(fm >= 0) by {
                    if fm == -1 {
                        assert(inc_rcs@[i as int].array != value);
                    }
                }
                assert(fm == i) by {
                    if fm < i {
                        assert(inc_rcs@[fm].array == value);
                    }
                    if fm > i {
                        assert(inc_rcs@[i as int].array != value);
                    }
                }
            }
            let rc2 = inc_rcs.remove(i);
            return Some(rc2);
        }
        i += 1;
    }
    proof {
        lemma_first_match(inc_rcs@, value);
        let fm = first_match(inc_rcs@, value);
        assert(fm < 0) by {
            if fm >= 0 {
                assert(inc_rcs@[fm].array == value);
            }
        }
    }
    None
}

impl Context {
    /// Scans the entry block only, in order, and records every
    /// `IncrementRc` as a pending, not-yet-mutated record. Arrays are
    /// assumed unmutated until the mutation scan says otherwise.
    fn find_rcs_in_entry_block(&mut self, function: &Function)
        requires
            function.wf(),
            old(self).inc_rcs@.len() == 0,
        ensures
            final(self).inc_rcs@ == initial_pending(*function),
    {
        let n = function.blocks[0].len();
        let mut k: usize = 0;
        while k < n
            invariant
                function.wf(),
                n == function.entry_ids().len(),
                k <= n,
                self.inc_rcs@ == pending_of(*function, function.entry_ids().take(k as int)),
            decreases n - k,
        {
            let id = function.blocks[0][k];
            assert(function.blocks@[0]@[k as int] < function.instructions@.len());
            let ins = function.instructions[id];
            proof {
                assert(function.entry_ids().take(k as int + 1).drop_last() =~= function.entry_ids().take(k as int));
                assert(function.entry_ids().take(k as int + 1).last() == function.entry_ids()[k as int]);
            }
            match ins {
                Instruction::IncrementRc { value } => {
                    self.inc_rcs.push(
                        RcInstruction { id, array: value, possibly_mutated: false },
                    );
                },
                _ => {},
            }
            k += 1;
        }
        proof {
            assert(function.entry_ids().take(n as int) =~= function.entry_ids());
        }
    }

    /// Finds every `ArraySet` in every reachable block and marks every
    /// pending record of the same array type as possibly mutated — not
    /// only the record of the array named by the `ArraySet`, since that
    /// array may alias any tracked value of the same type.
    fn scan_for_array_sets(&mut self, function: &Function)
        requires
            function.wf(),
            old(self).inc_rcs@ == initial_pending(*function),
        ensures
            final(self).inc_rcs@ == tainted_pending(*function),
    {
        proof {
            lemma_initial_pending_props(*function);
            assert forall|p: int| 0 <= p < self.inc_rcs@.len() implies {
                let rc = #[trigger] self.inc_rcs@[p];
                let rc0 = initial_pending(*function)[p];
                &&& rc.id == rc0.id
                &&& rc.array == rc0.array
                &&& rc.possibly_mutated == mutated_before(
                    *function,
                    function.type_of(rc0.array),
                    0,
                    0,
                )
            } by {
                lemma_mutated_before_none(
                    *function,
                    function.type_of(initial_pending(*function)[p].array),
                );
            }
        }
        let nb = function.blocks.len();
        let mut b: usize = 0;
        while b < nb
            invariant
                function.wf(),
                nb == function.blocks@.len(),
                b <= nb,
                self.inc_rcs@.len() == initial_pending(*function).len(),
                forall|p: int|
                    0 <= p < self.inc_rcs@.len() ==> {
                        let rc = #[trigger] self.inc_rcs@[p];
                        let rc0 = initial_pending(*function)[p];
                        &&& rc.id == rc0.id
                        &&& rc.array == rc0.array
                        &&& rc.possibly_mutated == mutated_before(
                            *function,
                            function.type_of(rc0.array),
                            b as int,
                            0,
                        )
                    },
            decreases nb - b,
        {
            let nj = function.blocks[b].len();
            let mut j: usize = 0;
            while j < nj
                invariant
                    function.wf(),
                    nb == function.blocks@.len(),
                    b < nb,
                    nj == function.blocks@[b as int]@.len(),
                    j <= nj,
                    self.inc_rcs@.len() == initial_pending(*function).len(),
                    forall|p: int|
                        0 <= p < self.inc_rcs@.len() ==> {
                            let rc = #[trigger] self.inc_rcs@[p];
                            let rc0 = initial_pending(*function)[p];
                            &&& rc.id == rc0.id
                            &&& rc.array == rc0.array
                            &&& rc.possibly_mutated == mutated_before(
                                *function,
                                function.type_of(rc0.array),
                                b as int,
                                j as int,
                            )
                        },
                decreases nj - j,
            {
                let id = function.blocks[b][j];
                assert(function.blocks@[b as int]@[j as int] < function.instructions@.len());
                let ins = function.instructions[id];
                match ins {
                    Instruction::ArraySet { array, .. } => {
                        assert(array < function.value_types@.len()) by {
                            assert(function.instructions@[id as int].values_within(
                                function.value_types@.len() as nat,
                            ));
                        }
                        let t = function.value_types[array];
                        proof {
                            lemma_initial_pending_props(*function);
                        }
                        let ghost pre = self.inc_rcs@;
                        mark_mutated(&mut self.inc_rcs, function, t);
                        proof {
                            assert forall|p: int| 0 <= p < self.inc_rcs@.len() implies {
                                let rc = #[trigger] self.inc_rcs@[p];
                                let rc0 = initial_pending(*function)[p];
                                &&& rc.id == rc0.id
                                &&& rc.array == rc0.array
                                &&& rc.possibly_mutated == mutated_before(
                                    *function,
                                    function.type_of(rc0.array),
                                    b as int,
                                    j as int + 1,
                                )
                            } by {
                                let rc0 = initial_pending(*function)[p];
                                assert(pre[p].id == rc0.id && pre[p].array == rc0.array
                                    && pre[p].possibly_mutated == mutated_before(
                                    *function,
                                    function.type_of(rc0.array),
                                    b as int,
                                    j as int,
                                ));
                                assert(self.inc_rcs@[p].id == pre[p].id && self.inc_rcs@[p].array
                                    == pre[p].array && self.inc_rcs@[p].possibly_mutated == (
                                pre[p].possibly_mutated || function.type_of(pre[p].array) == t));
                                lemma_mutated_before_step(
                                    *function,
                                    b as int,
                                    j as int,
                                    function.type_of(rc0.array),
                                );
                                assert(array_set_of_type(
                                    *function,
                                    ins,
                                    function.type_of(rc0.array),
                                ) == (function.type_of(rc0.array) == t));
                            }
                        }
                    },
                    _ => {
                        proof {
                            assert forall|p: int| 0 <= p < self.inc_rcs@.len() implies {
                                let rc = #[trigger] self.inc_rcs@[p];
                                let rc0 = initial_pending(*function)[p];
                                &&& rc.id == rc0.id
                                &&& rc.array == rc0.array
                                &&& rc.possibly_mutated == mutated_before(
                                    *function,
                                    function.type_of(rc0.array),
                                    b as int,
                                    j as int + 1,
                                )
                            } by {
                                let rc0 = initial_pending(*function)[p];
                                lemma_mutated_before_step(
                                    *function,
                                    b as int,
                                    j as int,
                                    function.type_of(rc0.array),
                                );
                                assert(!array_set_of_type(
                                    *function,
                                    ins,
                                    function.type_of(rc0.array),
                                ));
                            }
                        }
                    },
                }
                j += 1;
            }
            proof {
                assert forall|p: int| 0 <= p < self.inc_rcs@.len() implies {
                    let rc = #[trigger] self.inc_rcs@[p];
                    let rc0 = initial_pending(*function)[p];
                    &&& rc.id == rc0.id
                    &&& rc.array == rc0.array
                    &&& rc.possibly_mutated == mutated_before(
                        *function,
                        function.type_of(rc0.array),
                        b as int + 1,
                        0,
                    )
                } by {
                    lemma_mutated_before_block_end(
                        *function,
                        b as int,
                        function.type_of(initial_pending(*function)[p].array),
                    );
                }
            }
            b += 1;
        }
        proof {
            lemma_tainted_pending_props(*function);
            assert forall|p: int|
                0 <= p < self.inc_rcs@.len() implies #[trigger] self.inc_rcs@[p]
                == tainted_pending(*function)[p] by {
                lemma_mutated_before_full(
                    *function,
                    function.type_of(initial_pending(*function)[p].array),
                );
            }
            assert(self.inc_rcs@ =~= tainted_pending(*function));
        }
    }

    /// Walks the last block in order; each `DecrementRc` consumes the
    /// pending record of the identical value, if any, and the pair is
    /// scheduled for removal exactly when the record was never possibly
    /// mutated.
    fn find_rcs_to_remove(&mut self, function: &Function) -> (to_remove: Vec<InstructionId>)
        requires
            function.wf(),
            old(self).inc_rcs@ == tainted_pending(*function),
        ensures
            (final(self).inc_rcs@, to_remove@) == matcher_after(
                *function,
                function.last_ids().len() as int,
            ),
    {
        let last_block = function.last_block;
        let mut to_remove: Vec<InstructionId> = Vec::new();
        let n = function.blocks[last_block].len();
        let mut k: usize = 0;
        while k < n
            invariant
                function.wf(),
                last_block == function.last_block,
                n == function.last_ids().len(),
                k <= n,
                (self.inc_rcs@, to_remove@) == matcher_after(*function, k as int),
            decreases n - k,
        {
            let id = function.blocks[last_block][k];
            assert(function.blocks@[last_block as int]@[k as int] < function.instructions@.len());
            let ins = function.instructions[id];
            match ins {
                Instruction::DecrementRc { value } => {
                    match pop_rc_for(value, &mut self.inc_rcs) {
                        Some(inc_rc) => {
                            if !inc_rc.possibly_mutated {
                                to_remove.push(inc_rc.id);
                                to_remove.push(id);
                            }
                        },
                        None => {},
                    }
                },
                _ => {},
            }
            assert((self.inc_rcs@, to_remove@) == matcher_after(*function, k as int + 1));
            k += 1;
        }
        to_remove
    }
}

/// Looks up an id in the removal list.
fn id_listed(ids: &Vec<InstructionId>, id: InstructionId) -> (r: bool)
    ensures
        r == ids@.contains(id),
{
    let n = ids.len();
    let mut i: usize = 0;
    while i < n
        invariant
            n == ids@.len(),
            i <= n,
            forall|j: int| 0 <= j < i ==> ids@[j] != id,
        decreases n - i,
    {
        if ids[i] == id {
            assert(ids@.contains(id));
            return true;
        }
        i += 1;
    }
    false
}

/// One block's instruction list with the removed ids taken out, the rest
/// kept in order.
fn erase_block(ids: &Vec<InstructionId>, to_remove: &Vec<InstructionId>) -> (r: Vec<InstructionId>)
    ensures
        r@ == erase_ids(ids@, to_remove@),
{
    let n = ids.len();
    let mut out: Vec<InstructionId> = Vec::new();
    let mut k: usize = 0;
    while k < n
        invariant
            n == ids@.len(),
            k <= n,
            out@ == erase_ids(ids@.take(k as int), to_remove@),
        decreases n - k,
    {
        let id = ids[k];
        proof {
            assert(ids@.take(k as int + 1).drop_last() =~= ids@.take(k as int));
            assert(ids@.take(k as int + 1).last() == ids@[k as int]);
        }
        if !id_listed(to_remove, id) {
            out.push(id);
        }
        k += 1;
    }
    proof {
        assert(ids@.take(n as int) =~= ids@);
    }
    out
}

/// Applies the removal set: every reachable block retains only the
/// instructions outside it. An empty set short-circuits — a speed-up,
/// never a correctness condition.
pub fn remove_instructions(to_remove: Vec<InstructionId>, function: &mut Function)
    requires
        old(function).wf(),
    ensures
        final(function).parameters@ == old(function).parameters@,
        final(function).value_types@ == old(function).value_types@,
        final(function).type_contains_array@ == old(function).type_contains_array@,
        final(function).instructions@ == old(function).instructions@,
        final(function).last_block == old(function).last_block,
        final(function).blocks@.len() == old(function).blocks@.len(),
        forall|b: int|
            0 <= b < old(function).blocks@.len() ==> #[trigger] final(function).blocks@[b]@
                == erase_ids(old(function).blocks@[b]@, to_remove@),
        final(function).wf(),
{
    if to_remove.len() == 0 {
        proof {
            assert forall|b: int|
                0 <= b < function.blocks@.len() implies #[trigger] function.blocks@[b]@
                == erase_ids(function.blocks@[b]@, to_remove@) by {
                lemma_erase_empty(function.blocks@[b]@, to_remove@);
            }
        }
        return;
    }
    let nb = function.blocks.len();
    let mut new_blocks: Vec<Vec<InstructionId>> = Vec::new();
    let mut b: usize = 0;
    while b < nb
        invariant
            *function == *old(function),
            function.wf(),
            nb == function.blocks@.len(),
            b <= nb,
            new_blocks@.len() == b,
            forall|b2: int|
                0 <= b2 < b ==> (#[trigger] new_blocks@[b2])@ == erase_ids(
                    function.blocks@[b2]@,
                    to_remove@,
                ),
        decreases nb - b,
    {
        let filtered = erase_block(&function.blocks[b], &to_remove);
        new_blocks.push(filtered);
        b += 1;
    }
    function.blocks = new_blocks;
    proof {
        let f0 = *old(function);
        let g = *function;
        assert forall|b1: int, j1: int|
            0 <= b1 < g.blocks@.len() && 0 <= j1 < g.blocks@[b1]@.len() implies #[trigger] g.blocks@[b1]@[j1]
            < g.instructions@.len() by {
            lemma_erase_contains(f0.blocks@[b1]@, to_remove@);
            let x = g.blocks@[b1]@[j1];
            assert(g.blocks@[b1]@.contains(x));
            assert(f0.blocks@[b1]@.contains(x));
            let i = choose|i: int| 0 <= i < f0.blocks@[b1]@.len() && f0.blocks@[b1]@[i] == x;
            assert(f0.blocks@[b1]@[i] < f0.instructions@.len());
        }
        assert forall|b1: int, j1: int, b2: int, j2: int|
            0 <= b1 < g.blocks@.len() && 0 <= j1 < g.blocks@[b1]@.len() && 0 <= b2
                < g.blocks@.len() && 0 <= j2 < g.blocks@[b2]@.len() && #[trigger] g.blocks@[b1]@[j1]
                == #[trigger] g.blocks@[b2]@[j2] implies b1 == b2 && j1 == j2 by {
            lemma_erase_contains(f0.blocks@[b1]@, to_remove@);
            lemma_erase_contains(f0.blocks@[b2]@, to_remove@);
            let x = g.blocks@[b1]@[j1];
            assert(g.blocks@[b1]@.contains(x));
            assert(g.blocks@[b2]@.contains(x));
            assert(f0.blocks@[b1]@.contains(x));
            assert(f0.blocks@[b2]@.contains(x));
            let i1 = choose|i: int| 0 <= i < f0.blocks@[b1]@.len() && f0.blocks@[b1]@[i] == x;
            let i2 = choose|i: int| 0 <= i < f0.blocks@[b2]@.len() && f0.blocks@[b2]@[i] == x;
            assert(f0.blocks@[b1]@[i1] == f0.blocks@[b2]@[i2]);
            assert(b1 == b2);
            lemma_block_no_duplicates(f0, b1);
            lemma_erase_no_duplicates(f0.blocks@[b1]@, to_remove@);
        }
    }
}

impl Function {
    /// Removes matched `IncrementRc`/`DecrementRc` pairs of this
    /// function, in four stages: record the entry block's increments,
    /// mark every record whose array type an `ArraySet` anywhere may
    /// mutate, match the last block's decrements against the records by
    /// exact value, and erase the chosen pairs. Only the entry and last
    /// blocks are searched for the pairs themselves — decrements are
    /// currently emitted only at the end of a function, for parameters —
    /// which lets the pass ignore merging results across other blocks and
    /// loops; the rest of the function is still searched for `ArraySet`.
    pub fn remove_paired_rc(&mut self)
        requires
            old(self).wf(),
        ensures
            final(self).wf(),
            pass_post(*old(self), *final(self)),
    {
        if !contains_array_parameter(self) {
            proof {
                assert forall|b: int|
                    0 <= b < self.blocks@.len() implies #[trigger] self.blocks@[b]@ == erase_ids(
                    self.blocks@[b]@,
                    removal_seq(*self),
                ) by {
                    lemma_erase_empty(self.blocks@[b]@, removal_seq(*self));
                }
            }
            return;
        }
        let mut context = Context { inc_rcs: Vec::new() };
        context.find_rcs_in_entry_block(self);
        context.scan_for_array_sets(self);
        let to_remove = context.find_rcs_to_remove(self);
        assert(to_remove@ == removal_seq(*self));
        remove_instructions(to_remove, self);
    }
}

impl Ssa {
    /// Runs the pair-removal pass on every function of the program,
    /// independently and in order; no analysis state crosses from one
    /// function to the next.
    pub fn remove_paired_rc(self) -> (result: Ssa)
        requires
            self.wf(),
        ensures
            result.wf(),
            result.functions@.len() == self.functions@.len(),
            forall|i: int|
                0 <= i < self.functions@.len() ==> pass_post(
                    self.functions@[i],
                    #[trigger] result.functions@[i],
                ),
    {
        let ghost orig = self.functions@;
        let mut remaining = self.functions;
        let mut done: Vec<Function> = Vec::new();
        while remaining.len() > 0
            invariant
                done@.len() + remaining@.len() == orig.len(),
                forall|i: int| 0 <= i < orig.len() ==> (#[trigger] orig[i]).wf(),
                forall|i: int|
                    0 <= i < done@.len() ==> pass_post(orig[i], #[trigger] done@[i])
                        && done@[i].wf(),
                forall|i: int|
                    0 <= i < remaining@.len() ==> #[trigger] remaining@[i] == orig[done@.len()
                        + i],
            decreases remaining@.len(),
        {
            let ghost pre = remaining@;
            let mut function = remaining.remove(0);
            assert(function == orig[done@.len() as int]);
            function.remove_paired_rc();
            done.push(function);
            proof {
                assert forall|i: int|
                    0 <= i < remaining@.len() implies #[trigger] remaining@[i] == orig[done@.len()
                    + i] by {
                    assert(remaining@[i] == pre.remove(0)[i]);
                    assert(pre.remove(0)[i] == pre[i + 1]);
                }
            }
        }
        Ssa { functions: done }
    }
}

} // verus!
