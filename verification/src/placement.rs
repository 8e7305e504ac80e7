//! Why linear probing finds what was stored: the placement invariant of a
//! table that only ever gains entries, and what storing an entry does to the
//! map that the table stands for.

use vstd::prelude::*;
use crate::hash::fnv1a;
use crate::table::{
    arena_valid, home_slot, lookup, probe_distance, probe_from, probe_index, table_view, Entry,
    ProbeEnd, Slot,
};

verus! {

/// Every slot that the probe sequence of `key` visits in the steps from `from`
/// up to `to` is occupied by another key.
pub open spec fn path_blocked(
    slots: Seq<Slot>,
    heap: Seq<u8>,
    key: Seq<u8>,
    hash: u64,
    from: int,
    to: int,
) -> bool {
    forall|d: int|
        from <= d < to ==> {
            let j = #[trigger] probe_index(home_slot(hash, slots.len() as int), d, slots.len() as int);
            slots[j].occupied() && !slots[j].holds(heap, key, hash)
        }
}

/// The occupied slot `i` records the hash of its key, and the probe sequence
/// of that key reaches it.
pub open spec fn slot_placed(slots: Seq<Slot>, heap: Seq<u8>, i: int) -> bool {
    let s = slots[i];
    &&& s.hash == fnv1a(s.key(heap))
    &&& path_blocked(
        slots,
        heap,
        s.key(heap),
        s.hash,
        0,
        probe_distance(home_slot(s.hash, slots.len() as int), i, slots.len() as int),
    )
}

/// The placement invariant: every occupied slot is placed.
pub open spec fn placed(slots: Seq<Slot>, heap: Seq<u8>) -> bool {
    forall|i: int| 0 <= i < slots.len() && (#[trigger] slots[i]).occupied() ==> slot_placed(slots, heap, i)
}

/// `new` keeps every byte of `old` in place.
pub open spec fn extends(new: Seq<u8>, old: Seq<u8>) -> bool {
    &&& old.len() <= new.len()
    &&& forall|p: int| 0 <= p < old.len() ==> #[trigger] new[p] == old[p]
}

/// A probe sequence that is blocked up to step `to` ends where it ends from
/// step `to` on.
pub proof fn lemma_probe_skips(
    slots: Seq<Slot>,
    heap: Seq<u8>,
    key: Seq<u8>,
    hash: u64,
    from: int,
    to: int,
)
    requires
        0 <= from <= to <= slots.len(),
        path_blocked(slots, heap, key, hash, from, to),
    ensures
        probe_from(slots, heap, key, hash, from) == probe_from(slots, heap, key, hash, to),
    decreases to - from,
{
    if from < to {
        let j = probe_index(home_slot(hash, slots.len() as int), from, slots.len() as int);
        assert(slots[j].occupied() && !slots[j].holds(heap, key, hash));
        lemma_probe_skips(slots, heap, key, hash, from + 1, to);
    }
}

/// What the end of a probe sequence says about the slots.
pub proof fn lemma_probe_end(slots: Seq<Slot>, heap: Seq<u8>, key: Seq<u8>, hash: u64, from: int)
    requires
        slots.len() >= 1,
        0 <= from <= slots.len(),
    ensures
        match probe_from(slots, heap, key, hash, from) {
            ProbeEnd::Found(i) => {
                let e = probe_distance(home_slot(hash, slots.len() as int), i, slots.len() as int);
                &&& 0 <= i < slots.len()
                &&& slots[i].occupied()
                &&& slots[i].holds(heap, key, hash)
                &&& from <= e < slots.len()
                &&& path_blocked(slots, heap, key, hash, from, e)
            },
            ProbeEnd::Vacant(i) => {
                let e = probe_distance(home_slot(hash, slots.len() as int), i, slots.len() as int);
                &&& 0 <= i < slots.len()
                &&& !slots[i].occupied()
                &&& from <= e < slots.len()
                &&& path_blocked(slots, heap, key, hash, from, e)
            },
            ProbeEnd::Exhausted => path_blocked(slots, heap, key, hash, from, slots.len() as int),
        },
    decreases slots.len() - from,
{
    let cap = slots.len() as int;
    let home = home_slot(hash, cap);
    if from < cap {
        let j = probe_index(home, from, cap);
        assert(probe_distance(home, j, cap) == from);
        if slots[j].occupied() && !slots[j].holds(heap, key, hash) {
            lemma_probe_end(slots, heap, key, hash, from + 1);
        }
    }
}

/// In a placed table, the probe sequence of the key of an occupied slot finds
/// that slot.
pub proof fn lemma_placed_found(slots: Seq<Slot>, heap: Seq<u8>, i: int)
    requires
        slots.len() >= 1,
        0 <= i < slots.len(),
        slots[i].occupied(),
        slot_placed(slots, heap, i),
    ensures
        lookup(slots, heap, slots[i].key(heap)) == ProbeEnd::Found(i),
{
    let cap = slots.len() as int;
    let s = slots[i];
    let home = home_slot(s.hash, cap);
    let e = probe_distance(home, i, cap);
    assert(probe_index(home, e, cap) == i);
    lemma_probe_skips(slots, heap, s.key(heap), s.hash, 0, e);
}

/// In a placed table, a key is found in slot `i` exactly when slot `i` is
/// occupied by it.
pub proof fn lemma_found_iff_stored(slots: Seq<Slot>, heap: Seq<u8>, key: Seq<u8>, i: int)
    requires
        slots.len() >= 1,
        placed(slots, heap),
    ensures
        lookup(slots, heap, key) == ProbeEnd::Found(i) <==> 0 <= i
            < slots.len() && slots[i].occupied() && slots[i].key(heap) == key,
{
    lemma_probe_end(slots, heap, key, fnv1a(key), 0);
    if 0 <= i < slots.len() && slots[i].occupied() && slots[i].key(heap) == key {
        lemma_placed_found(slots, heap, i);
    }
}

/// A table without an occupied slot is placed and stands for the empty map.
pub proof fn lemma_empty_table(slots: Seq<Slot>, heap: Seq<u8>)
    requires
        slots.len() >= 1,
        forall|i: int| 0 <= i < slots.len() ==> !(#[trigger] slots[i]).occupied(),
    ensures
        placed(slots, heap),
        table_view(slots, heap) == Map::<Seq<u8>, Entry>::empty(),
{
    assert forall|key: Seq<u8>| !(lookup(slots, heap, key) is Found) by {
        lemma_probe_end(slots, heap, key, fnv1a(key), 0);
    }
    assert(table_view(slots, heap) =~= Map::<Seq<u8>, Entry>::empty());
}

/// A record that lies in a heap is the same in every heap that extends it.
pub proof fn lemma_record_stable(slot: Slot, old_heap: Seq<u8>, new_heap: Seq<u8>)
    requires
        slot.occupied(),
        slot.fits(old_heap.len() as int),
        extends(new_heap, old_heap),
    ensures
        slot.fits(new_heap.len() as int),
        slot.key(new_heap) == slot.key(old_heap),
        slot.value(new_heap) == slot.value(old_heap),
        slot.entry(new_heap) == slot.entry(old_heap),
{
    assert(slot.key(new_heap) =~= slot.key(old_heap));
    assert(slot.value(new_heap) =~= slot.value(old_heap));
}

/// Storing an entry.  The heap grows, and slot `i`, which is where the probe
/// sequence of `key` ended, now holds `key`.  Then the table is valid and
/// placed as before, and its map is the old one with `key` mapped to the new
/// entry.
pub proof fn lemma_store(
    slots: Seq<Slot>,
    heap: Seq<u8>,
    new_slots: Seq<Slot>,
    new_heap: Seq<u8>,
    i: int,
    key: Seq<u8>,
)
    requires
        arena_valid(slots, heap),
        placed(slots, heap),
        0 <= i < slots.len(),
        new_slots.len() == slots.len(),
        forall|j: int| 0 <= j < slots.len() && j != i ==> #[trigger] new_slots[j] == slots[j],
        extends(new_heap, heap),
        new_slots[i].occupied(),
        new_slots[i].fits(new_heap.len() as int),
        new_slots[i].hash == fnv1a(key),
        new_slots[i].key(new_heap) == key,
        lookup(slots, heap, key) == ProbeEnd::Found(i) || lookup(slots, heap, key)
            == ProbeEnd::Vacant(i),
    ensures
        arena_valid(new_slots, new_heap),
        placed(new_slots, new_heap),
        table_view(new_slots, new_heap) == table_view(slots, heap).insert(
            key,
            new_slots[i].entry(new_heap),
        ),
{
    let cap = slots.len() as int;
    let hash = fnv1a(key);
    lemma_probe_end(slots, heap, key, hash, 0);
    // Every other record is untouched.
    assert forall|j: int| 0 <= j < cap && j != i && slots[j].occupied() implies {
        &&& new_slots[j].fits(new_heap.len() as int)
        &&& new_slots[j].key(new_heap) == slots[j].key(heap)
        &&& new_slots[j].entry(new_heap) == slots[j].entry(heap)
    } by {
        assert(new_slots[j] == slots[j]);
        assert(slots[j].fits(heap.len() as int));
        lemma_record_stable(slots[j], heap, new_heap);
    }
    assert(arena_valid(new_slots, new_heap)) by {
        assert forall|j: int| 0 <= j < cap implies (#[trigger] new_slots[j]).fits(
            new_heap.len() as int,
        ) by {
            if j != i {
                assert(new_slots[j] == slots[j]);
            }
        }
    }
    // A slot that was occupied by a key holds the same key as before.
    assert forall|j: int| 0 <= j < cap && slots[j].occupied() implies {
        &&& new_slots[j].occupied()
        &&& new_slots[j].hash == slots[j].hash
        &&& new_slots[j].key(new_heap) == slots[j].key(heap)
    } by {
        if j != i {
            assert(new_slots[j] == slots[j]);
        }
    }
    assert(placed(new_slots, new_heap)) by {
        assert forall|j: int| 0 <= j < cap && (#[trigger] new_slots[j]).occupied() implies slot_placed(
            new_slots,
            new_heap,
            j,
        ) by {
            let s = new_slots[j];
            let k = s.key(new_heap);
            let e = probe_distance(home_slot(s.hash, cap), j, cap);
            if j != i {
                assert(new_slots[j] == slots[j]);
                assert(slot_placed(slots, heap, j));
            }
            assert(path_blocked(slots, heap, k, s.hash, 0, e));
            assert forall|d: int| 0 <= d < e implies {
                let p = #[trigger] probe_index(home_slot(s.hash, cap), d, cap);
                new_slots[p].occupied() && !new_slots[p].holds(new_heap, k, s.hash)
            } by {
                let p = probe_index(home_slot(s.hash, cap), d, cap);
                assert(slots[p].occupied() && !slots[p].holds(heap, k, s.hash));
            }
        }
    }
    let new_map = table_view(new_slots, new_heap);
    let old_map = table_view(slots, heap).insert(key, new_slots[i].entry(new_heap));
    assert(new_map =~= old_map) by {
        assert forall|q: Seq<u8>|
            {
                &&& #[trigger] new_map.dom().contains(q) == old_map.dom().contains(q)
                &&& new_map.dom().contains(q) ==> new_map[q] == old_map[q]
            } by {
            if q == key {
                lemma_placed_found(new_slots, new_heap, i);
            } else {
                lemma_probe_end(slots, heap, q, fnv1a(q), 0);
                lemma_probe_end(new_slots, new_heap, q, fnv1a(q), 0);
                match lookup(slots, heap, q) {
                    ProbeEnd::Found(j) => {
                        assert(j != i);
                        lemma_found_iff_stored(new_slots, new_heap, q, j);
                    },
                    _ => {
                        match lookup(new_slots, new_heap, q) {
                            ProbeEnd::Found(j) => {
                                assert(j != i);
                                assert(new_slots[j] == slots[j]);
                                lemma_found_iff_stored(slots, heap, q, j);
                            },
                            _ => {},
                        }
                    },
                }
            }
        }
    }
}

} // verus!
