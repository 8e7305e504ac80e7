//! Counting slots: how many are occupied, how many keys sit at each probe
//! depth, and when a table is full.

use vstd::prelude::*;
use crate::placement::{lemma_probe_end, path_blocked};
use crate::table::{home_slot, probe_distance, probe_from, probe_index, Slot};

verus! {

/// The number of flags that are set.
pub open spec fn count_true(flags: Seq<bool>) -> nat
    decreases flags.len(),
{
    if flags.len() == 0 {
        0
    } else {
        count_true(flags.drop_last()) + if flags.last() {
            1nat
        } else {
            0nat
        }
    }
}

/// For each slot, whether it is occupied.
pub open spec fn occupancy(slots: Seq<Slot>) -> Seq<bool> {
    Seq::new(slots.len(), |i: int| slots[i].occupied())
}

/// The number of occupied slots.
pub open spec fn occupied_count(slots: Seq<Slot>) -> nat {
    count_true(occupancy(slots))
}

/// Every slot is occupied.
pub open spec fn all_occupied(slots: Seq<Slot>) -> bool {
    forall|i: int| 0 <= i < slots.len() ==> (#[trigger] slots[i]).occupied()
}

/// The probe depth of slot `i`: the step in which the probe sequence of its
/// key reaches it.
pub open spec fn slot_depth(slots: Seq<Slot>, i: int) -> int {
    probe_distance(home_slot(slots[i].hash, slots.len() as int), i, slots.len() as int)
}

/// For each slot, whether it holds a key at probe depth `depth`.
pub open spec fn at_depth(slots: Seq<Slot>, depth: int) -> Seq<bool> {
    Seq::new(slots.len(), |i: int| slots[i].occupied() && slot_depth(slots, i) == depth)
}

/// The number of keys at probe depth `depth`.
pub open spec fn keys_at_depth(slots: Seq<Slot>, depth: int) -> nat {
    count_true(at_depth(slots, depth))
}

/// Whether `counts` is the histogram of the probe depths of the slots: for
/// each depth the number of keys at it, up to the last depth at which a key
/// sits.
pub open spec fn is_depth_histogram(counts: Seq<u64>, slots: Seq<Slot>) -> bool {
    &&& forall|d: int| 0 <= d < counts.len() ==> #[trigger] counts[d] == keys_at_depth(slots, d)
    &&& forall|d: int| d >= counts.len() ==> #[trigger] keys_at_depth(slots, d) == 0
    &&& counts.len() > 0 ==> counts.last() >= 1
}

/// Whether `depth` is the largest probe depth of a key; 0 for a table without
/// keys.
pub open spec fn is_largest_depth(depth: int, slots: Seq<Slot>) -> bool {
    &&& depth >= 0
    &&& forall|d: int| d > depth ==> #[trigger] keys_at_depth(slots, d) == 0
    &&& depth > 0 ==> keys_at_depth(slots, depth) >= 1
}

/// The count is at most the number of flags; it equals that number exactly
/// when every flag is set, and is zero exactly when none is.
pub proof fn lemma_count_bounds(flags: Seq<bool>)
    ensures
        count_true(flags) <= flags.len(),
        count_true(flags) == flags.len() <==> forall|i: int| 0 <= i < flags.len() ==> flags[i],
        count_true(flags) == 0 <==> forall|i: int| 0 <= i < flags.len() ==> !flags[i],
    decreases flags.len(),
{
    if flags.len() > 0 {
        let front = flags.drop_last();
        lemma_count_bounds(front);
        assert forall|i: int| 0 <= i < front.len() implies front[i] == flags[i] by {}
        if forall|i: int| 0 <= i < flags.len() ==> flags[i] {
            assert forall|i: int| 0 <= i < front.len() implies front[i] by {
                assert(flags[i]);
            }
        }
        if forall|i: int| 0 <= i < flags.len() ==> !flags[i] {
            assert forall|i: int| 0 <= i < front.len() implies !front[i] by {
                assert(!flags[i]);
            }
        }
        if count_true(flags) == flags.len() {
            assert forall|i: int| 0 <= i < flags.len() implies flags[i] by {
                if i < front.len() {
                    assert(front[i]);
                }
            }
        }
        if count_true(flags) == 0 {
            assert forall|i: int| 0 <= i < flags.len() implies !flags[i] by {
                if i < front.len() {
                    assert(!front[i]);
                }
            }
        }
    }
}

/// Changing one flag changes the count by what the flag changes.
pub proof fn lemma_count_replace(flags: Seq<bool>, new_flags: Seq<bool>, i: int)
    requires
        0 <= i < flags.len(),
        new_flags.len() == flags.len(),
        forall|j: int| 0 <= j < flags.len() && j != i ==> new_flags[j] == flags[j],
    ensures
        count_true(new_flags) + (if flags[i] {
            1nat
        } else {
            0nat
        }) == count_true(flags) + (if new_flags[i] {
            1nat
        } else {
            0nat
        }),
    decreases flags.len(),
{
    let front = flags.drop_last();
    let new_front = new_flags.drop_last();
    if i == flags.len() - 1 {
        assert(new_front =~= front);
    } else {
        assert(new_flags.last() == flags.last());
        lemma_count_replace(front, new_front, i);
    }
}

/// The number of occupied slots is at most the number of slots, and equals
/// it exactly when every slot is occupied.
pub proof fn lemma_occupied_bounds(slots: Seq<Slot>)
    ensures
        occupied_count(slots) <= slots.len(),
        occupied_count(slots) == slots.len() <==> all_occupied(slots),
{
    let flags = occupancy(slots);
    lemma_count_bounds(flags);
    if all_occupied(slots) {
        assert forall|i: int| 0 <= i < flags.len() implies flags[i] by {
            assert(slots[i].occupied());
        }
    }
    if occupied_count(slots) == slots.len() {
        assert forall|i: int| 0 <= i < slots.len() implies (#[trigger] slots[i]).occupied() by {
            assert(flags[i]);
        }
    }
}

/// A table without an occupied slot has no key, at any depth.
pub proof fn lemma_count_none(slots: Seq<Slot>)
    requires
        forall|i: int| 0 <= i < slots.len() ==> !(#[trigger] slots[i]).occupied(),
    ensures
        occupied_count(slots) == 0,
        forall|depth: int| keys_at_depth(slots, depth) == 0,
{
    lemma_count_bounds(occupancy(slots));
    assert forall|depth: int| keys_at_depth(slots, depth) == 0 by {
        lemma_count_bounds(at_depth(slots, depth));
    }
}

/// A slot that holds a key at some depth is counted there.
pub proof fn lemma_counted_at_depth(slots: Seq<Slot>, i: int)
    requires
        0 <= i < slots.len(),
        slots[i].occupied(),
    ensures
        keys_at_depth(slots, slot_depth(slots, i)) >= 1,
{
    let flags = at_depth(slots, slot_depth(slots, i));
    lemma_count_bounds(flags);
    assert(flags[i]);
}

/// Replacing one slot changes the number of occupied slots by what the slot's
/// occupancy changes, and the number of keys at a depth by what the slot
/// counts there.
pub proof fn lemma_slot_replaced(slots: Seq<Slot>, new_slots: Seq<Slot>, i: int, depth: int)
    requires
        0 <= i < slots.len(),
        new_slots.len() == slots.len(),
        forall|j: int| 0 <= j < slots.len() && j != i ==> #[trigger] new_slots[j] == slots[j],
    ensures
        occupied_count(new_slots) + (if slots[i].occupied() {
            1nat
        } else {
            0nat
        }) == occupied_count(slots) + (if new_slots[i].occupied() {
            1nat
        } else {
            0nat
        }),
        keys_at_depth(new_slots, depth) + (if slots[i].occupied() && slot_depth(slots, i) == depth {
            1nat
        } else {
            0nat
        }) == keys_at_depth(slots, depth) + (if new_slots[i].occupied() && slot_depth(new_slots, i)
            == depth {
            1nat
        } else {
            0nat
        }),
{
    assert forall|j: int| 0 <= j < slots.len() && j != i implies occupancy(new_slots)[j]
        == occupancy(slots)[j] by {
        assert(new_slots[j] == slots[j]);
    }
    lemma_count_replace(occupancy(slots), occupancy(new_slots), i);
    assert forall|j: int| 0 <= j < slots.len() && j != i implies at_depth(new_slots, depth)[j]
        == at_depth(slots, depth)[j] by {
        assert(new_slots[j] == slots[j]);
    }
    lemma_count_replace(at_depth(slots, depth), at_depth(new_slots, depth), i);
}

/// A probe sequence that runs out has seen every slot occupied; and in a full
/// table no probe sequence ends at an empty slot.
pub proof fn lemma_exhausted_iff_full(slots: Seq<Slot>, heap: Seq<u8>, key: Seq<u8>, hash: u64)
    requires
        slots.len() >= 1,
    ensures
        probe_from(slots, heap, key, hash, 0) is Exhausted ==> all_occupied(slots),
        all_occupied(slots) ==> !(probe_from(slots, heap, key, hash, 0) is Vacant),
{
    let cap = slots.len() as int;
    let home = home_slot(hash, cap);
    lemma_probe_end(slots, heap, key, hash, 0);
    if probe_from(slots, heap, key, hash, 0) is Exhausted {
        assert(path_blocked(slots, heap, key, hash, 0, cap));
        assert forall|i: int| 0 <= i < cap implies (#[trigger] slots[i]).occupied() by {
            let d = probe_distance(home, i, cap);
            assert(probe_index(home, d, cap) == i);
        }
    }
}

} // verus!
