//! The mathematical model of the reference-count pass.
//!
//! The pass is specified as a small pipeline over a function `f`:
//! `initial_pending(f)` is the pending-increment table read off the entry
//! block; `tainted_pending(f)` marks every record whose array type is
//! possibly mutated anywhere in the function; `matcher_after(f, k)` runs
//! the pair matcher over the first `k` instructions of the last block; and
//! `removal_seq(f)` is the resulting sequence of removed instruction ids,
//! empty when no parameter contains an array. `pass_post(f, g)` pins down
//! the rewritten function exactly: `g` is `f` with precisely those ids
//! erased from every block, in order, and nothing else changed.

use vstd::prelude::*;

use crate::ir::{Function, Instruction, InstructionId, TypeId, ValueId};

verus! {

/// A pending-increment record: the id of an entry-block `IncrementRc`,
/// the array value it increments, and whether an `ArraySet` of the same
/// type has been seen. The flag starts false and is only ever raised.
#[derive(Clone, Copy, PartialEq, Eq, Structural, Debug)]
pub struct RcInstruction {
    pub id: InstructionId,
    pub array: ValueId,
    pub possibly_mutated: bool,
}

/// Whether `ins` is an `ArraySet` whose array has type `t`.
pub open spec fn array_set_of_type(f: Function, ins: Instruction, t: TypeId) -> bool {
    match ins {
        Instruction::ArraySet { array, .. } => f.type_of(array) == t,
        _ => false,
    }
}

/// Whether any reachable instruction is an `ArraySet` on an array of type
/// `t`. Position is irrelevant on purpose: a mutation anywhere in the
/// function taints the type, the pass's conservative stand-in for alias
/// analysis.
pub open spec fn type_possibly_mutated(f: Function, t: TypeId) -> bool {
    exists|b: int, j: int|
        0 <= b < f.blocks@.len() && 0 <= j < f.blocks@[b]@.len() && array_set_of_type(
            f,
            f.inst(#[trigger] f.blocks@[b]@[j]),
            t,
        )
}

/// The taint established once the scan has covered all blocks before `b`
/// and the first `j` instructions of block `b`.
pub open spec fn mutated_before(f: Function, t: TypeId, b: int, j: int) -> bool {
    exists|b2: int, j2: int|
        0 <= b2 < f.blocks@.len() && 0 <= j2 < f.blocks@[b2]@.len() && (b2 < b || (b2 == b && j2
            < j)) && array_set_of_type(f, f.inst(#[trigger] f.blocks@[b2]@[j2]), t)
}

/// The pending-increment records read off the instruction ids `ids`, in
/// order: one unmarked record per `IncrementRc`.
pub open spec fn pending_of(f: Function, ids: Seq<InstructionId>) -> Seq<RcInstruction>
    decreases ids.len(),
{
    if ids.len() == 0 {
        Seq::empty()
    } else {
        let rest = pending_of(f, ids.drop_last());
        match f.inst(ids.last()) {
            Instruction::IncrementRc { value } => rest.push(
                RcInstruction { id: ids.last(), array: value, possibly_mutated: false },
            ),
            _ => rest,
        }
    }
}

/// The pending-increment table after scanning the entry block. Only the
/// entry block is scanned: increments elsewhere are never tracked and so
/// never removed, a deliberate restriction that spares the pass any
/// merging of analysis state across control-flow joins.
pub open spec fn initial_pending(f: Function) -> Seq<RcInstruction> {
    pending_of(f, f.entry_ids())
}

/// A record with its flag after the mutation scan.
pub open spec fn taint(f: Function, rc: RcInstruction) -> RcInstruction {
    RcInstruction {
        id: rc.id,
        array: rc.array,
        possibly_mutated: rc.possibly_mutated || type_possibly_mutated(f, f.type_of(rc.array)),
    }
}

/// The pending-increment table after the mutation scan.
pub open spec fn tainted_pending(f: Function) -> Seq<RcInstruction> {
    initial_pending(f).map_values(|rc: RcInstruction| taint(f, rc))
}

/// Index of the first pending record whose array is exactly the value
/// `v`, or -1 when there is none. Matching is by value identity, never
/// merely by type.
pub open spec fn first_match(pending: Seq<RcInstruction>, v: ValueId) -> int
    decreases pending.len(),
{
    if pending.len() == 0 {
        -1
    } else if pending[0].array == v {
        0
    } else {
        let r = first_match(pending.drop_first(), v);
        if r < 0 {
            -1
        } else {
            r + 1
        }
    }
}

/// One step of the pair matcher on state `(pending, removed)`. A
/// `DecrementRc` consumes the first pending record of the identical
/// value, if any; the pair is scheduled for removal only when that record
/// was never marked possibly mutated. Any other instruction is ignored.
pub open spec fn matcher_step(
    f: Function,
    st: (Seq<RcInstruction>, Seq<InstructionId>),
    id: InstructionId,
) -> (Seq<RcInstruction>, Seq<InstructionId>) {
    match f.inst(id) {
        Instruction::DecrementRc { value } => {
            let p = first_match(st.0, value);
            if p >= 0 {
                let rc = st.0[p];
                if !rc.possibly_mutated {
                    (st.0.remove(p), st.1.push(rc.id).push(id))
                } else {
                    (st.0.remove(p), st.1)
                }
            } else {
                st
            }
        },
        _ => st,
    }
}

/// Matcher state after the first `k` instructions of the last block,
/// starting from the scanned table.
pub open spec fn matcher_after(f: Function, k: int) -> (Seq<RcInstruction>, Seq<InstructionId>)
    decreases k,
{
    if k <= 0 {
        (tainted_pending(f), Seq::empty())
    } else {
        matcher_step(f, matcher_after(f, k - 1), f.last_ids()[k - 1])
    }
}

/// The instruction ids the pass removes from `f`: what the matcher
/// schedules over the whole last block, or nothing at all when no
/// parameter contains an array.
pub open spec fn removal_seq(f: Function) -> Seq<InstructionId> {
    if f.has_array_parameter() {
        matcher_after(f, f.last_ids().len() as int).1
    } else {
        Seq::empty()
    }
}

/// A block's instruction ids after erasure: the ids outside `removed`,
/// kept in their original order.
pub open spec fn erase_ids(ids: Seq<InstructionId>, removed: Seq<InstructionId>) -> Seq<
    InstructionId,
>
    decreases ids.len(),
{
    if ids.len() == 0 {
        Seq::empty()
    } else {
        let rest = erase_ids(ids.drop_last(), removed);
        if removed.contains(ids.last()) {
            rest
        } else {
            rest.push(ids.last())
        }
    }
}

/// Exactly how the pass rewrites one function: every table, the block
/// count and the last-block designation are unchanged, and each block
/// keeps, in order, exactly its ids outside the removal sequence.
pub open spec fn pass_post(f: Function, g: Function) -> bool {
    &&& g.parameters@ == f.parameters@
    &&& g.value_types@ == f.value_types@
    &&& g.type_contains_array@ == f.type_contains_array@
    &&& g.instructions@ == f.instructions@
    &&& g.last_block == f.last_block
    &&& g.blocks@.len() == f.blocks@.len()
    &&& forall|b: int|
        0 <= b < f.blocks@.len() ==> #[trigger] g.blocks@[b]@ == erase_ids(
            f.blocks@[b]@,
            removal_seq(f),
        )
}

/// Characterization of `first_match`: a non-negative result is the first
/// index holding the value, -1 means no index holds it.
pub proof fn lemma_first_match(pending: Seq<RcInstruction>, v: ValueId)
    ensures
        -1 <= first_match(pending, v) < pending.len(),
        first_match(pending, v) >= 0 ==> pending[first_match(pending, v)].array == v,
        first_match(pending, v) >= 0 ==> forall|j: int|
            0 <= j < first_match(pending, v) ==> pending[j].array != v,
        first_match(pending, v) == -1 ==> forall|j: int|
            0 <= j < pending.len() ==> pending[j].array != v,
    decreases pending.len(),
{
    if pending.len() > 0 && pending[0].array != v {
        lemma_first_match(pending.drop_first(), v);
        let r = first_match(pending.drop_first(), v);
        if r >= 0 {
            assert forall|j: int| 0 <= j < first_match(pending, v) implies pending[j].array
                != v by {
                if j > 0 {
                    assert(pending.drop_first()[j - 1] == pending[j]);
                    assert(pending.drop_first()[j - 1].array != v);
                }
            }
        } else {
            assert forall|j: int| 0 <= j < pending.len() implies pending[j].array != v by {
                if j > 0 {
                    assert(pending.drop_first()[j - 1] == pending[j]);
                    assert(pending.drop_first()[j - 1].array != v);
                }
            }
        }
    }
}

/// Erasing by an empty removal sequence changes nothing.
pub proof fn lemma_erase_empty(ids: Seq<InstructionId>, removed: Seq<InstructionId>)
    requires
        removed.len() == 0,
    ensures
        erase_ids(ids, removed) == ids,
    decreases ids.len(),
{
    if ids.len() == 0 {
        assert(erase_ids(ids, removed) =~= ids);
    } else {
        lemma_erase_empty(ids.drop_last(), removed);
        assert(erase_ids(ids, removed) =~= ids);
    }
}

/// An id survives erasure exactly when it was present and not removed.
pub proof fn lemma_erase_contains(ids: Seq<InstructionId>, removed: Seq<InstructionId>)
    ensures
        forall|x: InstructionId|
            #![trigger erase_ids(ids, removed).contains(x)]
            #![trigger ids.contains(x)]
            erase_ids(ids, removed).contains(x) <==> (ids.contains(x) && !removed.contains(x)),
    decreases ids.len(),
{
    if ids.len() > 0 {
        lemma_erase_contains(ids.drop_last(), removed);
        assert forall|x: InstructionId|
            erase_ids(ids, removed).contains(x) <==> (ids.contains(x) && !removed.contains(
                x,
            )) by {
            let dl = ids.drop_last();
            let rest = erase_ids(dl, removed);
            if erase_ids(ids, removed).contains(x) {
                let i = choose|i: int|
                    0 <= i < erase_ids(ids, removed).len() && erase_ids(ids, removed)[i] == x;
                if removed.contains(ids.last()) || i < rest.len() {
                    assert(rest.contains(x));
                    assert(dl.contains(x));
                    let i2 = choose|i2: int| 0 <= i2 < dl.len() && dl[i2] == x;
                    assert(ids[i2] == x);
                } else {
                    assert(x == ids.last());
                    assert(ids[ids.len() - 1] == x);
                }
            }
            if ids.contains(x) && !removed.contains(x) {
                let i = choose|i: int| 0 <= i < ids.len() && ids[i] == x;
                if i < ids.len() - 1 {
                    assert(dl[i] == x);
                    assert(dl.contains(x));
                    assert(rest.contains(x));
                    let i2 = choose|i2: int| 0 <= i2 < rest.len() && rest[i2] == x;
                    assert(erase_ids(ids, removed)[i2] == x);
                } else {
                    assert(x == ids.last());
                    assert(!removed.contains(ids.last()));
                    assert(erase_ids(ids, removed).last() == x);
                }
            }
        }
    }
}

/// Erasure introduces no duplicate ids.
pub proof fn lemma_erase_no_duplicates(ids: Seq<InstructionId>, removed: Seq<InstructionId>)
    requires
        ids.no_duplicates(),
    ensures
        erase_ids(ids, removed).no_duplicates(),
    decreases ids.len(),
{
    if ids.len() > 0 {
        let dl = ids.drop_last();
        assert(dl.no_duplicates());
        lemma_erase_no_duplicates(dl, removed);
        lemma_erase_contains(dl, removed);
        let rest = erase_ids(dl, removed);
        if !removed.contains(ids.last()) {
            assert(!dl.contains(ids.last())) by {
                if dl.contains(ids.last()) {
                    let i = choose|i: int| 0 <= i < dl.len() && dl[i] == ids.last();
                    assert(ids[i] == ids[ids.len() - 1]);
                }
            }
            assert(!rest.contains(ids.last()));
            assert forall|i: int, j: int|
                0 <= i < rest.push(ids.last()).len() && 0 <= j < rest.push(ids.last()).len() && i
                    != j implies rest.push(ids.last())[i] != rest.push(ids.last())[j] by {
                if i < rest.len() && j < rest.len() {
                } else if i < rest.len() {
                    assert(rest[i] != ids.last());
                } else if j < rest.len() {
                    assert(rest[j] != ids.last());
                }
            }
        }
    }
}

/// The records of `pending_of` are exactly the increments among `ids`:
/// each carries the id of an `IncrementRc` occurrence, its array value,
/// and a lowered flag.
pub proof fn lemma_pending_of_props(f: Function, ids: Seq<InstructionId>)
    requires
        forall|j: int| 0 <= j < ids.len() ==> #[trigger] ids[j] < f.instructions@.len(),
    ensures
        forall|p: int|
            0 <= p < pending_of(f, ids).len() ==> {
                let rc = #[trigger] pending_of(f, ids)[p];
                &&& !rc.possibly_mutated
                &&& rc.id < f.instructions@.len()
                &&& f.inst(rc.id) == (Instruction::IncrementRc { value: rc.array })
                &&& ids.contains(rc.id)
            },
    decreases ids.len(),
{
    if ids.len() > 0 {
        let dl = ids.drop_last();
        assert(forall|j: int| 0 <= j < dl.len() ==> #[trigger] dl[j] < f.instructions@.len());
        lemma_pending_of_props(f, dl);
        assert(ids[ids.len() - 1] == ids.last());
        assert forall|p: int| 0 <= p < pending_of(f, ids).len() implies {
            let rc = #[trigger] pending_of(f, ids)[p];
            &&& !rc.possibly_mutated
            &&& rc.id < f.instructions@.len()
            &&& f.inst(rc.id) == (Instruction::IncrementRc { value: rc.array })
            &&& ids.contains(rc.id)
        } by {
            let rc = pending_of(f, ids)[p];
            if p < pending_of(f, dl).len() {
                assert(pending_of(f, dl)[p] == rc);
                assert(dl.contains(rc.id));
                let i = choose|i: int| 0 <= i < dl.len() && dl[i] == rc.id;
                assert(ids[i] == rc.id);
            }
        }
    }
}

/// When `ids` has no duplicates, neither do the record ids of
/// `pending_of`.
pub proof fn lemma_pending_of_distinct(f: Function, ids: Seq<InstructionId>)
    requires
        ids.no_duplicates(),
        forall|j: int| 0 <= j < ids.len() ==> #[trigger] ids[j] < f.instructions@.len(),
    ensures
        forall|p1: int, p2: int|
            0 <= p1 < pending_of(f, ids).len() && 0 <= p2 < pending_of(f, ids).len() && p1 != p2
                ==> (#[trigger] pending_of(f, ids)[p1]).id != (#[trigger] pending_of(f, ids)[p2]).id,
    decreases ids.len(),
{
    if ids.len() > 0 {
        let dl = ids.drop_last();
        assert(dl.no_duplicates());
        lemma_pending_of_distinct(f, dl);
        lemma_pending_of_props(f, dl);
        assert forall|p1: int, p2: int|
            0 <= p1 < pending_of(f, ids).len() && 0 <= p2 < pending_of(f, ids).len() && p1
                != p2 implies (#[trigger] pending_of(f, ids)[p1]).id
            != (#[trigger] pending_of(f, ids)[p2]).id by {
            let n = pending_of(f, dl).len() as int;
            if p1 < n && p2 < n {
            } else {
                let pin = if p1 < n {
                    p1
                } else {
                    p2
                };
                assert(pending_of(f, ids)[pin] == pending_of(f, dl)[pin]);
                assert(dl.contains(pending_of(f, dl)[pin].id));
                let i = choose|i: int| 0 <= i < dl.len() && dl[i] == pending_of(f, dl)[pin].id;
                assert(ids[i] == dl[i]);
                assert(ids[ids.len() - 1] == ids.last());
            }
        }
    }
}

/// What the entry-block scan of a well-formed function yields: each
/// record stands for one `IncrementRc` occurrence of the entry block,
/// unmarked, with its tables in range, and no two records share an id.
pub proof fn lemma_initial_pending_props(f: Function)
    requires
        f.wf(),
    ensures
        forall|p: int|
            0 <= p < initial_pending(f).len() ==> {
                let rc = #[trigger] initial_pending(f)[p];
                &&& !rc.possibly_mutated
                &&& rc.id < f.instructions@.len()
                &&& f.inst(rc.id) == (Instruction::IncrementRc { value: rc.array })
                &&& f.entry_ids().contains(rc.id)
                &&& rc.array < f.value_types@.len()
            },
        forall|p1: int, p2: int|
            0 <= p1 < initial_pending(f).len() && 0 <= p2 < initial_pending(f).len() && p1 != p2
                ==> (#[trigger] initial_pending(f)[p1]).id != (#[trigger] initial_pending(f)[p2]).id,
{
    assert forall|j: int|
        0 <= j < f.entry_ids().len() implies #[trigger] f.entry_ids()[j]
        < f.instructions@.len() by {
        assert(f.blocks@[0]@[j] < f.instructions@.len());
    }
    lemma_pending_of_props(f, f.entry_ids());
    lemma_block_no_duplicates(f, 0);
    lemma_pending_of_distinct(f, f.entry_ids());
    assert forall|p: int| 0 <= p < initial_pending(f).len() implies {
        let rc = #[trigger] initial_pending(f)[p];
        &&& !rc.possibly_mutated
        &&& rc.id < f.instructions@.len()
        &&& f.inst(rc.id) == (Instruction::IncrementRc { value: rc.array })
        &&& f.entry_ids().contains(rc.id)
        &&& rc.array < f.value_types@.len()
    } by {
        let rc = initial_pending(f)[p];
        assert(f.instructions@[rc.id as int].values_within(f.value_types@.len() as nat));
    }
}

/// The scanned table in terms of the initial one: the same records in the
/// same order, each flag now recording exactly whether the record's array
/// type is possibly mutated somewhere in the function.
pub proof fn lemma_tainted_pending_props(f: Function)
    requires
        f.wf(),
    ensures
        tainted_pending(f).len() == initial_pending(f).len(),
        forall|p: int|
            0 <= p < tainted_pending(f).len() ==> {
                let rc = #[trigger] tainted_pending(f)[p];
                let rc0 = initial_pending(f)[p];
                &&& rc.id == rc0.id
                &&& rc.array == rc0.array
                &&& rc.possibly_mutated == type_possibly_mutated(f, f.type_of(rc.array))
                &&& rc.id < f.instructions@.len()
                &&& f.inst(rc.id) == (Instruction::IncrementRc { value: rc.array })
                &&& f.entry_ids().contains(rc.id)
                &&& rc.array < f.value_types@.len()
            },
        forall|p1: int, p2: int|
            0 <= p1 < tainted_pending(f).len() && 0 <= p2 < tainted_pending(f).len() && p1 != p2
                ==> (#[trigger] tainted_pending(f)[p1]).id != (#[trigger] tainted_pending(f)[p2]).id,
{
    lemma_initial_pending_props(f);
    assert forall|p: int| 0 <= p < tainted_pending(f).len() implies {
        let rc = #[trigger] tainted_pending(f)[p];
        let rc0 = initial_pending(f)[p];
        &&& rc.id == rc0.id
        &&& rc.array == rc0.array
        &&& rc.possibly_mutated == type_possibly_mutated(f, f.type_of(rc.array))
        &&& rc.id < f.instructions@.len()
        &&& f.inst(rc.id) == (Instruction::IncrementRc { value: rc.array })
        &&& f.entry_ids().contains(rc.id)
        &&& rc.array < f.value_types@.len()
    } by {
        assert(tainted_pending(f)[p] == taint(f, initial_pending(f)[p]));
    }
}

/// Each block of a well-formed function lists each id at most once.
pub proof fn lemma_block_no_duplicates(f: Function, b: int)
    requires
        f.wf(),
        0 <= b < f.blocks@.len(),
    ensures
        f.blocks@[b]@.no_duplicates(),
{
    assert forall|i: int, j: int|
        0 <= i < f.blocks@[b]@.len() && 0 <= j < f.blocks@[b]@.len() && i
            != j implies f.blocks@[b]@[i] != f.blocks@[b]@[j] by {
        if f.blocks@[b]@[i] == f.blocks@[b]@[j] {
            assert(false);
        }
    }
}

/// No taint has been established before the scan starts.
pub proof fn lemma_mutated_before_none(f: Function, t: TypeId)
    ensures
        !mutated_before(f, t, 0, 0),
{
}

/// Covering one more instruction adds exactly that instruction's
/// potential taint.
pub proof fn lemma_mutated_before_step(f: Function, b: int, j: int, t: TypeId)
    requires
        0 <= b < f.blocks@.len(),
        0 <= j < f.blocks@[b]@.len(),
    ensures
        mutated_before(f, t, b, j + 1) == (mutated_before(f, t, b, j) || array_set_of_type(
            f,
            f.inst(f.blocks@[b]@[j]),
            t,
        )),
{
    if mutated_before(f, t, b, j + 1) {
        let (b2, j2) = choose|b2: int, j2: int|
            0 <= b2 < f.blocks@.len() && 0 <= j2 < f.blocks@[b2]@.len() && (b2 < b || (b2 == b && j2
                < j + 1)) && array_set_of_type(f, f.inst(#[trigger] f.blocks@[b2]@[j2]), t);
        if b2 == b && j2 == j {
            assert(array_set_of_type(f, f.inst(f.blocks@[b]@[j]), t));
        } else {
            assert(mutated_before(f, t, b, j));
        }
    }
    if mutated_before(f, t, b, j) {
        let (b2, j2) = choose|b2: int, j2: int|
            0 <= b2 < f.blocks@.len() && 0 <= j2 < f.blocks@[b2]@.len() && (b2 < b || (b2 == b && j2
                < j)) && array_set_of_type(f, f.inst(#[trigger] f.blocks@[b2]@[j2]), t);
        assert(mutated_before(f, t, b, j + 1));
    }
    if array_set_of_type(f, f.inst(f.blocks@[b]@[j]), t) {
        assert(0 <= b < f.blocks@.len() && 0 <= j < f.blocks@[b]@.len() && (b < b || (b == b && j < j
            + 1)) && array_set_of_type(f, f.inst(f.blocks@[b]@[j]), t));
        assert(mutated_before(f, t, b, j + 1));
    }
}

/// Finishing a block is the same as standing at the start of the next.
pub proof fn lemma_mutated_before_block_end(f: Function, b: int, t: TypeId)
    requires
        0 <= b < f.blocks@.len(),
    ensures
        mutated_before(f, t, b + 1, 0) == mutated_before(f, t, b, f.blocks@[b]@.len() as int),
{
    if mutated_before(f, t, b + 1, 0) {
        let (b2, j2) = choose|b2: int, j2: int|
            0 <= b2 < f.blocks@.len() && 0 <= j2 < f.blocks@[b2]@.len() && (b2 < b + 1 || (b2 == b
                + 1 && j2 < 0)) && array_set_of_type(f, f.inst(#[trigger] f.blocks@[b2]@[j2]), t);
        assert(b2 < b || (b2 == b && j2 < f.blocks@[b]@.len()));
        assert(mutated_before(f, t, b, f.blocks@[b]@.len() as int));
    }
    if mutated_before(f, t, b, f.blocks@[b]@.len() as int) {
        let (b2, j2) = choose|b2: int, j2: int|
            0 <= b2 < f.blocks@.len() && 0 <= j2 < f.blocks@[b2]@.len() && (b2 < b || (b2 == b && j2
                < f.blocks@[b]@.len())) && array_set_of_type(
                f,
                f.inst(#[trigger] f.blocks@[b2]@[j2]),
                t,
            );
        assert(mutated_before(f, t, b + 1, 0));
    }
}

/// Once every block is covered, the partial taint is the full one.
pub proof fn lemma_mutated_before_full(f: Function, t: TypeId)
    ensures
        mutated_before(f, t, f.blocks@.len() as int, 0) == type_possibly_mutated(f, t),
{
    if mutated_before(f, t, f.blocks@.len() as int, 0) {
        let (b2, j2) = choose|b2: int, j2: int|
            0 <= b2 < f.blocks@.len() && 0 <= j2 < f.blocks@[b2]@.len() && (b2 < f.blocks@.len() || (
            b2 == f.blocks@.len() && j2 < 0)) && array_set_of_type(
                f,
                f.inst(#[trigger] f.blocks@[b2]@[j2]),
                t,
            );
        assert(type_possibly_mutated(f, t));
    }
    if type_possibly_mutated(f, t) {
        let (b2, j2) = choose|b2: int, j2: int|
            0 <= b2 < f.blocks@.len() && 0 <= j2 < f.blocks@[b2]@.len() && array_set_of_type(
                f,
                f.inst(#[trigger] f.blocks@[b2]@[j2]),
                t,
            );
        assert(mutated_before(f, t, f.blocks@.len() as int, 0));
    }
}

} // verus!
