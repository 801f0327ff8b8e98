//! The laws the pass obeys, stated over the model in `analysis` and
//! proved for every well-formed function.
//!
//! The central fact is `lemma_removal_sound`: every removed instruction
//! id belongs to a reference-count pair over one array value whose type
//! no reachable `ArraySet` targets. Conservativeness, exact matching and
//! idempotence follow from it and from the matcher invariant.

use vstd::prelude::*;

use crate::analysis::{
    array_set_of_type, erase_ids, first_match, initial_pending, lemma_erase_contains,
    lemma_erase_empty, lemma_first_match, lemma_initial_pending_props,
    lemma_tainted_pending_props, matcher_after, pass_post, pending_of, removal_seq,
    tainted_pending, type_possibly_mutated, RcInstruction,
};
use crate::ir::{Function, Instruction, InstructionId, ValueId};

verus! {

/// Whether `ins` is `DecrementRc` of exactly the value `v`.
pub open spec fn decrements(ins: Instruction, v: ValueId) -> bool {
    ins == (Instruction::DecrementRc { value: v })
}

/// Whether `ins` is one of the two reference-count instructions.
pub open spec fn is_rc_instruction(ins: Instruction) -> bool {
    match ins {
        Instruction::IncrementRc { .. } => true,
        Instruction::DecrementRc { .. } => true,
        _ => false,
    }
}

/// Whether the entry block holds a pending increment of exactly the
/// value `v`.
pub open spec fn pending_increment_for(f: Function, v: ValueId) -> bool {
    exists|p: int|
        0 <= p < initial_pending(f).len() && (#[trigger] initial_pending(f)[p]).array == v
}

/// What must hold of an id for the pass to remove it: it is the
/// entry-block increment, or a last-block decrement, of an array value
/// `v` that has a pending entry-block increment and whose type no
/// reachable `ArraySet` targets.
pub open spec fn removal_justified(f: Function, id: InstructionId) -> bool {
    exists|v: ValueId|
        #![trigger f.type_of(v)]
        {
            &&& v < f.value_types@.len()
            &&& !type_possibly_mutated(f, f.type_of(v))
            &&& pending_increment_for(f, v)
            &&& {
                ||| (f.entry_ids().contains(id) && f.inst(id) == (Instruction::IncrementRc {
                    value: v,
                }))
                ||| (f.last_ids().contains(id) && f.inst(id) == (Instruction::DecrementRc {
                    value: v,
                }))
            }
        }
}

/// The matcher's inductive invariant after `k` steps over the last
/// block: the pending records are drawn from the scanned table with
/// distinct ids; every removed id is justified; an unmarked record is
/// still pending exactly as long as its id was not removed; and every
/// decrement already processed was either removed or faces no unmarked
/// pending record of its value.
proof fn lemma_matcher_invariant(f: Function, k: int)
    requires
        f.wf(),
        0 <= k <= f.last_ids().len(),
    ensures
        ({
            let pend = matcher_after(f, k).0;
            let rem = matcher_after(f, k).1;
            &&& forall|p: int|
                0 <= p < pend.len() ==> tainted_pending(f).contains(#[trigger] pend[p])
            &&& forall|p1: int, p2: int|
                0 <= p1 < pend.len() && 0 <= p2 < pend.len() && p1 != p2 ==> (
                #[trigger] pend[p1]).id != (#[trigger] pend[p2]).id
            &&& forall|q: int| 0 <= q < rem.len() ==> removal_justified(f, #[trigger] rem[q])
            &&& forall|p: int|
                0 <= p < tainted_pending(f).len() && !(#[trigger] tainted_pending(
                    f,
                )[p]).possibly_mutated ==> (pend.contains(tainted_pending(f)[p])
                    <==> !rem.contains(tainted_pending(f)[p].id))
            &&& forall|j: int, v: ValueId|
                0 <= j < k && #[trigger] decrements(f.inst(f.last_ids()[j]), v) ==> (rem.contains(
                    f.last_ids()[j],
                ) || !(exists|p: int|
                    0 <= p < pend.len() && (#[trigger] pend[p]).array == v
                        && !pend[p].possibly_mutated))
        }),
    decreases k,
{
    lemma_tainted_pending_props(f);
    let tp = tainted_pending(f);
    if k == 0 {
        let pend = matcher_after(f, k).0;
        assert(pend == tp);
        assert forall|p: int| 0 <= p < pend.len() implies tp.contains(#[trigger] pend[p]) by {
            assert(tp[p] == pend[p]);
        }
        assert forall|p: int|
            0 <= p < tp.len() && !(#[trigger] tp[p]).possibly_mutated implies (pend.contains(tp[p])
            <==> !matcher_after(f, k).1.contains(tp[p].id)) by {
            assert(pend[p] == tp[p]);
            assert(pend.contains(tp[p]));
        }
    } else {
        lemma_matcher_invariant(f, k - 1);
        let pend0 = matcher_after(f, k - 1).0;
        let rem0 = matcher_after(f, k - 1).1;
        let id = f.last_ids()[k - 1];
        let pend = matcher_after(f, k).0;
        let rem = matcher_after(f, k).1;
        assert(f.blocks@[f.last_block as int]@[k - 1] < f.instructions@.len());
        match f.inst(id) {
            Instruction::DecrementRc { value: v } => {
                lemma_first_match(pend0, v);
                let pos = first_match(pend0, v);
                if pos >= 0 {
                    let rc = pend0[pos];
                    assert(rc.array == v);
                    pend0.remove_ensures(pos);
                    assert(pend == pend0.remove(pos));
                    // the record came from the scanned table, so its flag
                    // records exactly its type's taint
                    assert(tp.contains(rc));
                    let qrc = choose|q: int| 0 <= q < tp.len() && tp[q] == rc;
                    assert(rc.possibly_mutated == type_possibly_mutated(f, f.type_of(rc.array)));
                    assert(initial_pending(f)[qrc].array == rc.array);
                    assert(pending_increment_for(f, v));
                    // pending containment and distinctness carry through the removal
                    assert forall|p: int|
                        0 <= p < pend.len() implies tp.contains(#[trigger] pend[p]) by {
                        if p < pos {
                            assert(pend[p] == pend0[p]);
                        } else {
                            assert(pend[p] == pend0[p + 1]);
                        }
                    }
                    assert forall|p1: int, p2: int|
                        0 <= p1 < pend.len() && 0 <= p2 < pend.len() && p1 != p2 implies (
                    #[trigger] pend[p1]).id != (#[trigger] pend[p2]).id by {
                        let o1 = if p1 < pos {
                            p1
                        } else {
                            p1 + 1
                        };
                        let o2 = if p2 < pos {
                            p2
                        } else {
                            p2 + 1
                        };
                        assert(pend[p1] == pend0[o1]);
                        assert(pend[p2] == pend0[o2]);
                    }
                    if !rc.possibly_mutated {
                        assert(rem == rem0.push(rc.id).push(id));
                        assert(!type_possibly_mutated(f, f.type_of(v)));
                        // both new removal entries are justified
                        assert(f.last_ids().contains(id)) by {
                            assert(f.last_ids()[k - 1] == id);
                        }
                        assert(removal_justified(f, rc.id)) by {
                            assert(f.type_of(v) == f.type_of(rc.array));
                            assert(f.inst(rc.id) == (Instruction::IncrementRc { value: v }));
                        }
                        assert(removal_justified(f, id)) by {
                            assert(f.type_of(v) == f.type_of(rc.array));
                        }
                        assert forall|q: int|
                            0 <= q < rem.len() implies removal_justified(
                            f,
                            #[trigger] rem[q],
                        ) by {
                            if q < rem0.len() {
                                assert(rem[q] == rem0[q]);
                            } else if q == rem0.len() {
                                assert(rem[q] == rc.id);
                            } else {
                                assert(rem[q] == id);
                            }
                        }
                        assert forall|p: int|
                            0 <= p < tp.len() && !(#[trigger] tp[p]).possibly_mutated implies (
                        pend.contains(tp[p]) <==> !rem.contains(tp[p].id)) by {
                            let x = tp[p];
                            if x.id == rc.id {
                                assert(p == qrc);
                                assert(x == rc);
                                assert(rem.contains(x.id)) by {
                                    assert(rem[rem0.len() as int] == rc.id);
                                }
                                assert(!pend.contains(x)) by {
                                    if pend.contains(x) {
                                        let i = choose|i: int|
                                            0 <= i < pend.len() && pend[i] == x;
                                        let oi = if i < pos {
                                            i
                                        } else {
                                            i + 1
                                        };
                                        assert(pend[i] == pend0[oi]);
                                        assert(pend0[oi].id == pend0[pos].id);
                                    }
                                }
                            } else {
                                assert(x.id != id) by {
                                    assert(f.inst(x.id) == (Instruction::IncrementRc {
                                        value: x.array,
                                    }));
                                }
                                assert(rem.contains(x.id) <==> rem0.contains(x.id)) by {
                                    if rem0.contains(x.id) {
                                        let i = choose|i: int|
                                            0 <= i < rem0.len() && rem0[i] == x.id;
                                        assert(rem[i] == x.id);
                                    }
                                    if rem.contains(x.id) {
                                        let i = choose|i: int| 0 <= i < rem.len() && rem[i] == x.id;
                                        assert(i < rem0.len());
                                        assert(rem0[i] == x.id);
                                    }
                                }
                                assert(pend.contains(x) <==> pend0.contains(x)) by {
                                    if pend0.contains(x) {
                                        let i = choose|i: int|
                                            0 <= i < pend0.len() && pend0[i] == x;
                                        assert(i != pos);
                                        if i < pos {
                                            assert(pend[i] == x);
                                        } else {
                                            assert(pend[i - 1] == x);
                                        }
                                    }
                                    if pend.contains(x) {
                                        let i = choose|i: int|
                                            0 <= i < pend.len() && pend[i] == x;
                                        let oi = if i < pos {
                                            i
                                        } else {
                                            i + 1
                                        };
                                        assert(pend0[oi] == x);
                                    }
                                }
                            }
                        }
                        assert forall|j: int, v2: ValueId|
                            0 <= j < k && #[trigger] decrements(f.inst(f.last_ids()[j]), v2) implies (
                        rem.contains(f.last_ids()[j]) || !(exists|p: int|
                            0 <= p < pend.len() && (#[trigger] pend[p]).array == v2
                                && !pend[p].possibly_mutated)) by {
                            if j == k - 1 {
                                assert(rem[rem0.len() as int + 1] == id);
                                assert(rem.contains(f.last_ids()[j]));
                            } else {
                                if rem0.contains(f.last_ids()[j]) {
                                    let i = choose|i: int|
                                        0 <= i < rem0.len() && rem0[i] == f.last_ids()[j];
                                    assert(rem[i] == f.last_ids()[j]);
                                    assert(rem.contains(f.last_ids()[j]));
                                } else {
                                    assert(!(exists|p: int|
                                        0 <= p < pend0.len() && (#[trigger] pend0[p]).array == v2
                                            && !pend0[p].possibly_mutated));
                                    assert forall|p: int|
                                        0 <= p < pend.len() implies !((#[trigger] pend[p]).array
                                        == v2 && !pend[p].possibly_mutated) by {
                                        let oi = if p < pos {
                                            p
                                        } else {
                                            p + 1
                                        };
                                        assert(pend[p] == pend0[oi]);
                                    }
                                }
                            }
                        }
                    } else {
                        assert(rem == rem0);
                        assert(type_possibly_mutated(f, f.type_of(v)));
                        assert forall|p: int|
                            0 <= p < tp.len() && !(#[trigger] tp[p]).possibly_mutated implies (
                        pend.contains(tp[p]) <==> !rem.contains(tp[p].id)) by {
                            let x = tp[p];
                            assert(x != rc);
                            assert(pend.contains(x) <==> pend0.contains(x)) by {
                                if pend0.contains(x) {
                                    let i = choose|i: int| 0 <= i < pend0.len() && pend0[i] == x;
                                    assert(i != pos);
                                    if i < pos {
                                        assert(pend[i] == x);
                                    } else {
                                        assert(pend[i - 1] == x);
                                    }
                                }
                                if pend.contains(x) {
                                    let i = choose|i: int| 0 <= i < pend.len() && pend[i] == x;
                                    let oi = if i < pos {
                                        i
                                    } else {
                                        i + 1
                                    };
                                    assert(pend0[oi] == x);
                                }
                            }
                        }
                        assert forall|j: int, v2: ValueId|
                            0 <= j < k && #[trigger] decrements(f.inst(f.last_ids()[j]), v2) implies (
                        rem.contains(f.last_ids()[j]) || !(exists|p: int|
                            0 <= p < pend.len() && (#[trigger] pend[p]).array == v2
                                && !pend[p].possibly_mutated)) by {
                            if j == k - 1 {
                                assert(v2 == v);
                                assert forall|p: int|
                                    0 <= p < pend.len() implies !((#[trigger] pend[p]).array == v2
                                    && !pend[p].possibly_mutated) by {
                                    if pend[p].array == v2 && !pend[p].possibly_mutated {
                                        assert(tp.contains(pend[p]));
                                        let q = choose|q: int|
                                            0 <= q < tp.len() && tp[q] == pend[p];
                                        assert(tp[q].possibly_mutated == type_possibly_mutated(
                                            f,
                                            f.type_of(v),
                                        ));
                                    }
                                }
                            } else {
                                if !rem0.contains(f.last_ids()[j]) {
                                    assert forall|p: int|
                                        0 <= p < pend.len() implies !((#[trigger] pend[p]).array
                                        == v2 && !pend[p].possibly_mutated) by {
                                        let oi = if p < pos {
                                            p
                                        } else {
                                            p + 1
                                        };
                                        assert(pend[p] == pend0[oi]);
                                    }
                                }
                            }
                        }
                    }
                } else {
                    assert(pend == pend0 && rem == rem0);
                    assert forall|j: int, v2: ValueId|
                        0 <= j < k && #[trigger] decrements(f.inst(f.last_ids()[j]), v2) implies (
                    rem.contains(f.last_ids()[j]) || !(exists|p: int|
                        0 <= p < pend.len() && (#[trigger] pend[p]).array == v2
                            && !pend[p].possibly_mutated)) by {
                        if j == k - 1 {
                            assert(v2 == v);
                            assert forall|p: int|
                                0 <= p < pend.len() implies !((#[trigger] pend[p]).array == v2
                                && !pend[p].possibly_mutated) by {
                                assert(pend0[p].array != v);
                            }
                        }
                    }
                }
            },
            _ => {
                assert(pend == pend0 && rem == rem0);
                assert forall|j: int, v2: ValueId|
                    0 <= j < k && #[trigger] decrements(f.inst(f.last_ids()[j]), v2) implies (
                rem.contains(f.last_ids()[j]) || !(exists|p: int|
                    0 <= p < pend.len() && (#[trigger] pend[p]).array == v2
                        && !pend[p].possibly_mutated)) by {
                    if j == k - 1 {
                        assert(!decrements(f.inst(id), v2));
                    }
                }
            },
        }
    }
}

/// Soundness: every id the pass removes is one side of a matched
/// increment/decrement pair over a single array value whose type no
/// reachable `ArraySet` targets — the pass never removes anything else,
/// and `pass_post` says everything else is kept unchanged.
pub proof fn lemma_removal_sound(f: Function, id: InstructionId)
    requires
        f.wf(),
        removal_seq(f).contains(id),
    ensures
        removal_justified(f, id),
{
    if f.has_array_parameter() {
        lemma_matcher_invariant(f, f.last_ids().len() as int);
        let q = choose|q: int| 0 <= q < removal_seq(f).len() && removal_seq(f)[q] == id;
        assert(removal_justified(f, removal_seq(f)[q]));
    } else {
        assert(removal_seq(f).len() == 0);
    }
}

/// A justified id names a reference-count instruction of the function —
/// never an `ArraySet`, never anything else.
pub proof fn lemma_justified_is_rc(f: Function, id: InstructionId)
    requires
        f.wf(),
        removal_justified(f, id),
    ensures
        id < f.instructions@.len(),
        is_rc_instruction(f.inst(id)),
{
    let v = choose|v: ValueId|
        #![trigger f.type_of(v)]
        {
            &&& v < f.value_types@.len()
            &&& !type_possibly_mutated(f, f.type_of(v))
            &&& pending_increment_for(f, v)
            &&& {
                ||| (f.entry_ids().contains(id) && f.inst(id) == (Instruction::IncrementRc {
                    value: v,
                }))
                ||| (f.last_ids().contains(id) && f.inst(id) == (Instruction::DecrementRc {
                    value: v,
                }))
            }
        };
    if f.entry_ids().contains(id) && f.inst(id) == (Instruction::IncrementRc { value: v }) {
        let j = choose|j: int| 0 <= j < f.entry_ids().len() && f.entry_ids()[j] == id;
        assert(f.blocks@[0]@[j] < f.instructions@.len());
    } else {
        let j = choose|j: int| 0 <= j < f.last_ids().len() && f.last_ids()[j] == id;
        assert(f.blocks@[f.last_block as int]@[j] < f.instructions@.len());
    }
}

/// Conservativeness, increment side: a pending increment whose array
/// type some reachable `ArraySet` targets is never removed, wherever
/// that `ArraySet` stands relative to the pair.
pub proof fn lemma_conservative_increment(f: Function, p: int)
    requires
        f.wf(),
        0 <= p < initial_pending(f).len(),
        type_possibly_mutated(f, f.type_of(initial_pending(f)[p].array)),
    ensures
        !removal_seq(f).contains(initial_pending(f)[p].id),
{
    lemma_initial_pending_props(f);
    let rc = initial_pending(f)[p];
    if removal_seq(f).contains(rc.id) {
        lemma_removal_sound(f, rc.id);
        let v = choose|v: ValueId|
            #![trigger f.type_of(v)]
            {
                &&& v < f.value_types@.len()
                &&& !type_possibly_mutated(f, f.type_of(v))
                &&& pending_increment_for(f, v)
                &&& {
                    ||| (f.entry_ids().contains(rc.id) && f.inst(rc.id)
                        == (Instruction::IncrementRc { value: v }))
                    ||| (f.last_ids().contains(rc.id) && f.inst(rc.id)
                        == (Instruction::DecrementRc { value: v }))
                }
            };
        assert(f.inst(rc.id) == (Instruction::IncrementRc { value: rc.array }));
        assert(v == rc.array);
        assert(false);
    }
}

/// Conservativeness, decrement side: a decrement of a value whose array
/// type some reachable `ArraySet` targets is never removed.
pub proof fn lemma_conservative_decrement(f: Function, id: InstructionId, v: ValueId)
    requires
        f.wf(),
        id < f.instructions@.len(),
        f.inst(id) == (Instruction::DecrementRc { value: v }),
        v < f.value_types@.len(),
        type_possibly_mutated(f, f.type_of(v)),
    ensures
        !removal_seq(f).contains(id),
{
    if removal_seq(f).contains(id) {
        lemma_removal_sound(f, id);
        let v2 = choose|v2: ValueId|
            #![trigger f.type_of(v2)]
            {
                &&& v2 < f.value_types@.len()
                &&& !type_possibly_mutated(f, f.type_of(v2))
                &&& pending_increment_for(f, v2)
                &&& {
                    ||| (f.entry_ids().contains(id) && f.inst(id) == (Instruction::IncrementRc {
                        value: v2,
                    }))
                    ||| (f.last_ids().contains(id) && f.inst(id) == (Instruction::DecrementRc {
                        value: v2,
                    }))
                }
            };
        assert(v2 == v);
        assert(false);
    }
}

/// Exact matching: a decrement is removed only when the entry block
/// pends an increment of the identical value — the same type alone is
/// never enough.
pub proof fn lemma_exact_match(f: Function, id: InstructionId, v: ValueId)
    requires
        f.wf(),
        id < f.instructions@.len(),
        f.inst(id) == (Instruction::DecrementRc { value: v }),
        removal_seq(f).contains(id),
    ensures
        pending_increment_for(f, v),
{
    lemma_removal_sound(f, id);
    let v2 = choose|v2: ValueId|
        #![trigger f.type_of(v2)]
        {
            &&& v2 < f.value_types@.len()
            &&& !type_possibly_mutated(f, f.type_of(v2))
            &&& pending_increment_for(f, v2)
            &&& {
                ||| (f.entry_ids().contains(id) && f.inst(id) == (Instruction::IncrementRc {
                    value: v2,
                }))
                ||| (f.last_ids().contains(id) && f.inst(id) == (Instruction::DecrementRc {
                    value: v2,
                }))
            }
        };
    assert(v2 == v);
}

/// A pending table with every record whose id was removed taken out,
/// the rest kept in order.
pub open spec fn drop_removed(pend: Seq<RcInstruction>, removed: Seq<InstructionId>) -> Seq<
    RcInstruction,
>
    decreases pend.len(),
{
    if pend.len() == 0 {
        Seq::empty()
    } else {
        let rest = drop_removed(pend.drop_last(), removed);
        if removed.contains(pend.last().id) {
            rest
        } else {
            rest.push(pend.last())
        }
    }
}

/// A record survives `drop_removed` exactly when it was present and its
/// id was not removed.
proof fn lemma_drop_removed_contains(pend: Seq<RcInstruction>, removed: Seq<InstructionId>)
    ensures
        forall|x: RcInstruction|
            #![trigger drop_removed(pend, removed).contains(x)]
            #![trigger pend.contains(x)]
            drop_removed(pend, removed).contains(x) <==> (pend.contains(x) && !removed.contains(
                x.id,
            )),
    decreases pend.len(),
{
    if pend.len() > 0 {
        let dl = pend.drop_last();
        lemma_drop_removed_contains(dl, removed);
        let rest = drop_removed(dl, removed);
        assert forall|x: RcInstruction|
            drop_removed(pend, removed).contains(x) <==> (pend.contains(x) && !removed.contains(
                x.id,
            )) by {
            if drop_removed(pend, removed).contains(x) {
                let i = choose|i: int|
                    0 <= i < drop_removed(pend, removed).len() && drop_removed(pend, removed)[i]
                        == x;
                if removed.contains(pend.last().id) || i < rest.len() {
                    assert(rest.contains(x));
                    assert(dl.contains(x));
                    let i2 = choose|i2: int| 0 <= i2 < dl.len() && dl[i2] == x;
                    assert(pend[i2] == x);
                } else {
                    assert(x == pend.last());
                    assert(pend[pend.len() - 1] == x);
                }
            }
            if pend.contains(x) && !removed.contains(x.id) {
                let i = choose|i: int| 0 <= i < pend.len() && pend[i] == x;
                if i < pend.len() - 1 {
                    assert(dl[i] == x);
                    assert(dl.contains(x));
                    assert(rest.contains(x));
                    let i2 = choose|i2: int| 0 <= i2 < rest.len() && rest[i2] == x;
                    assert(drop_removed(pend, removed)[i2] == x);
                } else {
                    assert(x == pend.last());
                    assert(drop_removed(pend, removed).last() == x);
                }
            }
        }
    }
}

/// The pending records read off a list of ids depend only on the
/// instruction table.
proof fn lemma_pending_of_congruence(f: Function, g: Function, ids: Seq<InstructionId>)
    requires
        g.instructions@ == f.instructions@,
    ensures
        pending_of(g, ids) == pending_of(f, ids),
    decreases ids.len(),
{
    if ids.len() > 0 {
        lemma_pending_of_congruence(f, g, ids.drop_last());
    }
}

/// Reading the pending records off an erased id list is dropping the
/// erased ids' records from the original reading.
proof fn lemma_pending_of_erase(f: Function, ids: Seq<InstructionId>, removed: Seq<InstructionId>)
    ensures
        pending_of(f, erase_ids(ids, removed)) == drop_removed(pending_of(f, ids), removed),
    decreases ids.len(),
{
    if ids.len() > 0 {
        let dl = ids.drop_last();
        lemma_pending_of_erase(f, dl, removed);
        let e = erase_ids(ids, removed);
        let pdl = pending_of(f, dl);
        if removed.contains(ids.last()) {
            assert(e == erase_ids(dl, removed));
            match f.inst(ids.last()) {
                Instruction::IncrementRc { value } => {
                    let r = RcInstruction {
                        id: ids.last(),
                        array: value,
                        possibly_mutated: false,
                    };
                    assert(pending_of(f, ids) == pdl.push(r));
                    assert(pdl.push(r).drop_last() =~= pdl);
                    assert(pdl.push(r).last() == r);
                    assert(drop_removed(pdl.push(r), removed) == drop_removed(pdl, removed));
                },
                _ => {
                    assert(pending_of(f, ids) == pdl);
                },
            }
        } else {
            assert(e == erase_ids(dl, removed).push(ids.last()));
            assert(e.drop_last() =~= erase_ids(dl, removed));
            assert(e.last() == ids.last());
            match f.inst(ids.last()) {
                Instruction::IncrementRc { value } => {
                    let r = RcInstruction {
                        id: ids.last(),
                        array: value,
                        possibly_mutated: false,
                    };
                    assert(pending_of(f, e) == pending_of(f, erase_ids(dl, removed)).push(r));
                    assert(pending_of(f, ids) == pdl.push(r));
                    assert(pdl.push(r).drop_last() =~= pdl);
                    assert(pdl.push(r).last() == r);
                    assert(drop_removed(pdl.push(r), removed) == drop_removed(pdl, removed).push(
                        r,
                    ));
                },
                _ => {
                    assert(pending_of(f, e) == pending_of(f, erase_ids(dl, removed)));
                    assert(pending_of(f, ids) == pdl);
                },
            }
        }
    }
}

/// The guard is a function of the tables the pass never changes.
proof fn lemma_guard_preserved(f: Function, g: Function)
    requires
        pass_post(f, g),
    ensures
        g.has_array_parameter() == f.has_array_parameter(),
{
    if f.has_array_parameter() {
        let p = choose|p: int|
            0 <= p < f.parameters@.len()
                && f.type_contains_array@[f.value_types@[#[trigger] f.parameters@[p] as int] as int];
        assert(g.parameters@[p] == f.parameters@[p]);
        assert(g.has_array_parameter());
    }
    if g.has_array_parameter() {
        let p = choose|p: int|
            0 <= p < g.parameters@.len()
                && g.type_contains_array@[g.value_types@[#[trigger] g.parameters@[p] as int] as int];
        assert(f.parameters@[p] == g.parameters@[p]);
        assert(f.has_array_parameter());
    }
}

/// The pass removes only reference-count instructions, so every
/// `ArraySet` survives it and no new one appears: each type's taint is
/// the same before and after.
proof fn lemma_taint_preserved(f: Function, g: Function, t: usize)
    requires
        f.wf(),
        pass_post(f, g),
    ensures
        type_possibly_mutated(g, t) == type_possibly_mutated(f, t),
{
    if type_possibly_mutated(g, t) {
        let (b, j) = choose|b: int, j: int|
            0 <= b < g.blocks@.len() && 0 <= j < g.blocks@[b]@.len()
                && array_set_of_type(g, g.inst(#[trigger] g.blocks@[b]@[j]), t);
        let x = g.blocks@[b]@[j];
        assert(g.blocks@[b]@ == erase_ids(f.blocks@[b]@, removal_seq(f)));
        lemma_erase_contains(f.blocks@[b]@, removal_seq(f));
        assert(g.blocks@[b]@.contains(x));
        assert(f.blocks@[b]@.contains(x));
        let i = choose|i: int| 0 <= i < f.blocks@[b]@.len() && f.blocks@[b]@[i] == x;
        assert(array_set_of_type(f, f.inst(f.blocks@[b]@[i]), t));
        assert(type_possibly_mutated(f, t));
    }
    if type_possibly_mutated(f, t) {
        let (b, j) = choose|b: int, j: int|
            0 <= b < f.blocks@.len() && 0 <= j < f.blocks@[b]@.len()
                && array_set_of_type(f, f.inst(#[trigger] f.blocks@[b]@[j]), t);
        let x = f.blocks@[b]@[j];
        if removal_seq(f).contains(x) {
            lemma_removal_sound(f, x);
            lemma_justified_is_rc(f, x);
            assert(false);
        }
        assert(g.blocks@[b]@ == erase_ids(f.blocks@[b]@, removal_seq(f)));
        lemma_erase_contains(f.blocks@[b]@, removal_seq(f));
        assert(f.blocks@[b]@.contains(x)) by {
            assert(f.blocks@[b]@[j] == x);
        }
        assert(g.blocks@[b]@.contains(x));
        let i = choose|i: int| 0 <= i < g.blocks@[b]@.len() && g.blocks@[b]@[i] == x;
        assert(array_set_of_type(g, g.inst(g.blocks@[b]@[i]), t));
        assert(type_possibly_mutated(g, t));
    }
}

/// The rewritten function's pending table: the original's records minus
/// the removed increments.
proof fn lemma_initial_pending_of_pass(f: Function, g: Function)
    requires
        f.wf(),
        pass_post(f, g),
    ensures
        initial_pending(g) == drop_removed(initial_pending(f), removal_seq(f)),
{
    assert(g.blocks@[0]@ == erase_ids(f.blocks@[0]@, removal_seq(f)));
    lemma_pending_of_congruence(f, g, g.entry_ids());
    lemma_pending_of_erase(f, f.entry_ids(), removal_seq(f));
}

/// On the pass's own output the matcher schedules nothing: every pair it
/// would form again is tainted or already gone.
proof fn lemma_second_matcher_empty(f: Function, g: Function, k: int)
    requires
        f.wf(),
        g.wf(),
        pass_post(f, g),
        g.has_array_parameter(),
        0 <= k <= g.last_ids().len(),
    ensures
        matcher_after(g, k).1 == Seq::<InstructionId>::empty(),
    decreases k,
{
    if k > 0 {
        lemma_second_matcher_empty(f, g, k - 1);
        lemma_matcher_invariant(g, k - 1);
        lemma_tainted_pending_props(g);
        let pend0 = matcher_after(g, k - 1).0;
        let id = g.last_ids()[k - 1];
        assert(g.blocks@[g.last_block as int]@[k - 1] < g.instructions@.len());
        match g.inst(id) {
            Instruction::DecrementRc { value: v } => {
                lemma_first_match(pend0, v);
                let pos = first_match(pend0, v);
                if pos >= 0 {
                    let rc = pend0[pos];
                    assert(rc.array == v);
                    assert(tainted_pending(g).contains(rc));
                    let q = choose|q: int|
                        0 <= q < tainted_pending(g).len() && tainted_pending(g)[q] == rc;
                    assert(rc.possibly_mutated == type_possibly_mutated(g, g.type_of(v)));
                    if !rc.possibly_mutated {
                        // an unmarked record survived the first run with its
                        // decrement still present: impossible
                        lemma_guard_preserved(f, g);
                        lemma_taint_preserved(f, g, g.type_of(v));
                        assert(g.type_of(v) == f.type_of(v));
                        assert(!type_possibly_mutated(f, f.type_of(v)));
                        // locate the record in the original function
                        let rc0 = initial_pending(g)[q];
                        assert(rc0.id == rc.id && rc0.array == rc.array);
                        assert(!rc0.possibly_mutated) by {
                            lemma_initial_pending_props(g);
                        }
                        assert(rc0 == rc);
                        lemma_initial_pending_of_pass(f, g);
                        lemma_drop_removed_contains(initial_pending(f), removal_seq(f));
                        assert(initial_pending(g).contains(rc0)) by {
                            assert(initial_pending(g)[q] == rc0);
                        }
                        assert(initial_pending(f).contains(rc0));
                        assert(!removal_seq(f).contains(rc0.id));
                        let qf = choose|qf: int|
                            0 <= qf < initial_pending(f).len() && initial_pending(f)[qf] == rc0;
                        lemma_tainted_pending_props(f);
                        let xf = tainted_pending(f)[qf];
                        assert(xf.id == rc0.id && xf.array == rc0.array);
                        assert(xf.possibly_mutated == type_possibly_mutated(
                            f,
                            f.type_of(rc0.array),
                        ));
                        assert(!xf.possibly_mutated);
                        assert(xf == rc0);
                        // by the matcher invariant of the first run the
                        // record is still pending at the end
                        let n = f.last_ids().len() as int;
                        lemma_matcher_invariant(f, n);
                        let pendf = matcher_after(f, n).0;
                        let remf = matcher_after(f, n).1;
                        assert(remf == removal_seq(f));
                        assert(pendf.contains(xf));
                        // and the decrement itself survived the first run
                        assert(g.blocks@[g.last_block as int]@ == erase_ids(
                            f.blocks@[f.last_block as int]@,
                            removal_seq(f),
                        ));
                        lemma_erase_contains(f.blocks@[f.last_block as int]@, removal_seq(f));
                        assert(g.last_ids().contains(id)) by {
                            assert(g.last_ids()[k - 1] == id);
                        }
                        assert(f.last_ids().contains(id));
                        assert(!removal_seq(f).contains(id));
                        let jf = choose|jf: int|
                            0 <= jf < f.last_ids().len() && f.last_ids()[jf] == id;
                        assert(f.inst(id) == g.inst(id));
                        assert(decrements(f.inst(f.last_ids()[jf]), v));
                        // the first run's invariant says it was removed or
                        // faces no unmarked record of its value: both fail
                        assert(remf.contains(f.last_ids()[jf]) || !(exists|p: int|
                            0 <= p < pendf.len() && (#[trigger] pendf[p]).array == v
                                && !pendf[p].possibly_mutated));
                        let pf = choose|pf: int| 0 <= pf < pendf.len() && pendf[pf] == xf;
                        assert(pendf[pf].array == v && !pendf[pf].possibly_mutated);
                        assert(false);
                    }
                }
            },
            _ => {},
        }
    }
}

/// Idempotence: the pass applied to its own output changes nothing —
/// running it twice in succession is running it once.
pub proof fn lemma_idempotent(f: Function, g: Function)
    requires
        f.wf(),
        g.wf(),
        pass_post(f, g),
    ensures
        pass_post(g, g),
{
    if g.has_array_parameter() {
        lemma_second_matcher_empty(f, g, g.last_ids().len() as int);
    }
    assert(removal_seq(g).len() == 0);
    assert forall|b: int|
        0 <= b < g.blocks@.len() implies #[trigger] g.blocks@[b]@ == erase_ids(
        g.blocks@[b]@,
        removal_seq(g),
    ) by {
        lemma_erase_empty(g.blocks@[b]@, removal_seq(g));
    }
}

/// Exact matching, unmatched side: a decrement of a value without an
/// entry-block increment of that exact value is left untouched.
pub proof fn lemma_unmatched_decrement_kept(f: Function, id: InstructionId, v: ValueId)
    requires
        f.wf(),
        id < f.instructions@.len(),
        f.inst(id) == (Instruction::DecrementRc { value: v }),
        !pending_increment_for(f, v),
    ensures
        !removal_seq(f).contains(id),
{
    if removal_seq(f).contains(id) {
        lemma_exact_match(f, id, v);
    }
}

} // verus!

