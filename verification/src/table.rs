//! The slot arena: a fixed-capacity hash table with linear probing, and the
//! value heap that its slots point into.
//!
//! The arena is what the writer fills and what a cache image stores, slot for
//! slot.  What it means is a finite map from keys to typed values, `table_view`;
//! this module defines that meaning by the probe sequence alone, so that it
//! applies to any arena, whoever built it.

use vstd::prelude::*;
use crate::codec::{
    copy_range, le_bytes, le_value, lemma_bytes_round_trip, lemma_le_bytes_len,
    lemma_le_bytes_prefix, lemma_le_value_bound, lemma_low_bytes_value, lemma_pow256_grows,
    lemma_pow256_values, low_bytes, read_le, scalar_bits, write_le,
};
use crate::hash::fnv1a;
use crate::key_type::{lemma_code_round_trip, KeyType};
use crate::placement::{extends, lemma_store, placed};

verus! {

/// The largest number of bytes of a scalar value that a slot holds inline.
pub const INLINE_WIDTH: u64 = 8;

/// One record of the slot table.
#[derive(Clone, Copy, Debug)]
pub struct Slot {
    /// 0 for an empty slot, else the value's type code plus one.
    pub tag: u8,
    /// The hash of the key.
    pub hash: u64,
    /// Where in the heap the key starts; a value that is not inline follows it.
    pub offset: u64,
    /// The length of the key.
    pub key_len: u64,
    /// The length of the value.
    pub value_len: u64,
    /// The value, little-endian, where it is inline.
    pub inline: u64,
}

/// The empty slot: every field is zero.
pub open spec fn blank_slot() -> Slot {
    Slot { tag: 0, hash: 0, offset: 0, key_len: 0, value_len: 0, inline: 0 }
}

/// What a key maps to: a typed byte string.
pub struct Entry {
    pub key_type: KeyType,
    pub value: Seq<u8>,
}

/// How a probe sequence ends.
pub enum ProbeEnd {
    /// The key sits in this slot.
    Found(int),
    /// The key is absent, and this is the first empty slot of its sequence.
    Vacant(int),
    /// The key is absent, and its sequence has no empty slot.
    Exhausted,
}

/// How a probe sequence ends, with the slot as an index.
#[derive(Clone, Copy, Debug)]
pub enum Probe {
    Found(usize),
    Vacant(usize),
    Exhausted,
}

impl View for Probe {
    type V = ProbeEnd;

    open spec fn view(&self) -> ProbeEnd {
        match *self {
            Probe::Found(i) => ProbeEnd::Found(i as int),
            Probe::Vacant(i) => ProbeEnd::Vacant(i as int),
            Probe::Exhausted => ProbeEnd::Exhausted,
        }
    }
}

impl Slot {
    pub open spec fn occupied(self) -> bool {
        self.tag != 0
    }

    /// The type of the value of an occupied slot.
    pub open spec fn key_type(self) -> Option<KeyType> {
        KeyType::spec_from_code(self.tag - 1)
    }

    /// Whether the slot itself holds the value.
    pub open spec fn is_inline(self) -> bool {
        &&& self.key_type() is Some
        &&& self.key_type().unwrap().spec_is_scalar()
        &&& self.value_len <= INLINE_WIDTH
    }

    /// The number of heap bytes that belong to the slot.
    pub open spec fn record_len(self) -> int {
        if self.is_inline() {
            self.key_len as int
        } else {
            self.key_len + self.value_len
        }
    }

    /// The slot is empty and blank, or it has a type and its record lies in a
    /// heap of the given length.
    pub open spec fn fits(self, heap_len: int) -> bool {
        if self.occupied() {
            &&& self.key_type() is Some
            &&& self.offset + self.record_len() <= heap_len
        } else {
            self == blank_slot()
        }
    }

    pub open spec fn key(self, heap: Seq<u8>) -> Seq<u8> {
        heap.subrange(self.offset as int, self.offset + self.key_len)
    }

    pub open spec fn value(self, heap: Seq<u8>) -> Seq<u8> {
        if self.is_inline() {
            le_bytes(self.inline as nat, self.value_len as nat)
        } else {
            heap.subrange(self.offset + self.key_len, self.offset + self.key_len + self.value_len)
        }
    }

    /// Whether the slot is the one for `key`, whose hash is `hash`.
    pub open spec fn holds(self, heap: Seq<u8>, key: Seq<u8>, hash: u64) -> bool {
        self.hash == hash && self.key(heap) == key
    }

    pub open spec fn entry(self, heap: Seq<u8>) -> Entry {
        Entry { key_type: self.key_type().unwrap(), value: self.value(heap) }
    }

    /// The empty slot.
    pub fn vacant() -> (s: Slot)
        ensures
            s == blank_slot(),
    {
        Slot { tag: 0, hash: 0, offset: 0, key_len: 0, value_len: 0, inline: 0 }
    }
}

/// Whether a value of this type and length stays in its slot.
pub open spec fn stays_inline(key_type: KeyType, value: Seq<u8>) -> bool {
    key_type.spec_is_scalar() && value.len() <= INLINE_WIDTH
}

/// The slot of a new record for `key` that starts at `offset`.
pub open spec fn record_slot(key: Seq<u8>, value: Seq<u8>, key_type: KeyType, offset: int) -> Slot {
    Slot {
        tag: (key_type.spec_code() + 1) as u8,
        hash: fnv1a(key),
        offset: offset as u64,
        key_len: key.len() as u64,
        value_len: value.len() as u64,
        inline: if stays_inline(key_type, value) {
            le_value(value) as u64
        } else {
            0
        },
    }
}

/// The heap bytes of a new record: the key, and the value unless it stays in
/// the slot.
pub open spec fn record_bytes(key: Seq<u8>, value: Seq<u8>, key_type: KeyType) -> Seq<u8> {
    if stays_inline(key_type, value) {
        key
    } else {
        key + value
    }
}

/// The slot that a probe sequence starting at `home` visits in step `d`.
pub open spec fn probe_index(home: int, d: int, cap: int) -> int {
    if home + d < cap {
        home + d
    } else {
        home + d - cap
    }
}

/// The step in which a probe sequence starting at `home` visits slot `i`.
pub open spec fn probe_distance(home: int, i: int, cap: int) -> int {
    if i >= home {
        i - home
    } else {
        i + cap - home
    }
}

/// The slot where the probe sequence of a hash starts.
pub open spec fn home_slot(hash: u64, cap: int) -> int {
    hash as int % cap
}

/// The end of the probe sequence of `key` from step `d` on: the first slot
/// that holds the key, or the first empty one, whichever comes first.
pub open spec fn probe_from(
    slots: Seq<Slot>,
    heap: Seq<u8>,
    key: Seq<u8>,
    hash: u64,
    d: int,
) -> ProbeEnd
    decreases slots.len() - d,
{
    if d < 0 || d >= slots.len() {
        ProbeEnd::Exhausted
    } else {
        let i = probe_index(home_slot(hash, slots.len() as int), d, slots.len() as int);
        if !slots[i].occupied() {
            ProbeEnd::Vacant(i)
        } else if slots[i].holds(heap, key, hash) {
            ProbeEnd::Found(i)
        } else {
            probe_from(slots, heap, key, hash, d + 1)
        }
    }
}

/// Where the arena keeps `key`, if anywhere.
pub open spec fn lookup(slots: Seq<Slot>, heap: Seq<u8>, key: Seq<u8>) -> ProbeEnd {
    probe_from(slots, heap, key, crate::hash::fnv1a(key), 0)
}

/// The arena has a slot, and every record lies in the heap.
pub open spec fn arena_valid(slots: Seq<Slot>, heap: Seq<u8>) -> bool {
    &&& slots.len() >= 1
    &&& forall|i: int| 0 <= i < slots.len() ==> (#[trigger] slots[i]).fits(heap.len() as int)
}

/// The map that the arena stands for: a key maps to the entry of the slot that
/// its probe sequence finds.
pub open spec fn table_view(slots: Seq<Slot>, heap: Seq<u8>) -> Map<Seq<u8>, Entry> {
    Map::new(
        |key: Seq<u8>| lookup(slots, heap, key) is Found,
        |key: Seq<u8>| slots[lookup(slots, heap, key)->Found_0].entry(heap),
    )
}

/// A slot table with its value heap.
pub struct CacheTable {
    pub slots: Vec<Slot>,
    pub heap: Vec<u8>,
}

/// Whether the bytes of `heap` from `offset` on are those of `key`.
pub fn heap_matches(heap: &Vec<u8>, offset: usize, key: &[u8]) -> (same: bool)
    requires
        offset + key.len() <= heap.len(),
    ensures
        same == (heap@.subrange(offset as int, offset + key.len()) == key@),
{
    let mut i: usize = 0;
    while i < key.len()
        invariant
            i <= key.len(),
            offset + key.len() <= heap.len(),
            forall|j: int| 0 <= j < i ==> heap@[offset + j] == key@[j],
        decreases key.len() - i,
    {
        if heap[offset + i] != key[i] {
            proof {
                let part = heap@.subrange(offset as int, offset + key.len());
                assert(part[i as int] != key@[i as int]);
            }
            return false;
        }
        i = i + 1;
    }
    proof {
        assert(heap@.subrange(offset as int, offset + key.len()) =~= key@);
    }
    true
}

impl CacheTable {
    /// The arena is valid.
    pub open spec fn valid(&self) -> bool {
        arena_valid(self.slots@, self.heap@)
    }

    /// The map that the table stands for.
    pub open spec fn view(&self) -> Map<Seq<u8>, Entry> {
        table_view(self.slots@, self.heap@)
    }

    /// A table of `capacity` empty slots, or `None` where that many slots
    /// cannot be indexed on this machine.
    pub fn new(capacity: u64) -> (t: Option<CacheTable>)
        ensures
            t is Some <==> 1 <= capacity <= usize::MAX,
            t is Some ==> {
                let t = t.unwrap();
                &&& t.valid()
                &&& t.slots@.len() == capacity
                &&& t.heap@.len() == 0
                &&& forall|i: int| 0 <= i < capacity ==> #[trigger] t.slots@[i] == blank_slot()
            },
    {
        if capacity < 1 || capacity > usize::MAX as u64 {
            return None;
        }
        let n: usize = capacity as usize;
        let mut slots: Vec<Slot> = Vec::new();
        let mut i: usize = 0;
        while i < n
            invariant
                i <= n,
                slots@.len() == i,
                forall|j: int| 0 <= j < i ==> #[trigger] slots@[j] == blank_slot(),
            decreases n - i,
        {
            slots.push(Slot::vacant());
            i = i + 1;
        }
        Some(CacheTable { slots, heap: Vec::new() })
    }

    /// Every key sits where its probe sequence looks for it.
    pub open spec fn placed(&self) -> bool {
        placed(self.slots@, self.heap@)
    }

    /// Stores `value` under `key` in slot `at`, where the probe sequence of
    /// `key` ended: the record goes to the end of the heap, and the slot points
    /// to it.  A scalar of at most eight bytes stays in the slot.
    pub fn put(&mut self, at: usize, key: &[u8], value: &[u8], key_type: KeyType, hash: u64)
        requires
            old(self).valid(),
            old(self).placed(),
            hash == fnv1a(key@),
            lookup(old(self).slots@, old(self).heap@, key@) == ProbeEnd::Found(at as int) || lookup(
                old(self).slots@,
                old(self).heap@,
                key@,
            ) == ProbeEnd::Vacant(at as int),
        ensures
            final(self).valid(),
            final(self).placed(),
            final(self)@ == old(self)@.insert(key@, Entry { key_type, value: value@ }),
            final(self).slots@ == old(self).slots@.update(
                at as int,
                record_slot(key@, value@, key_type, old(self).heap@.len() as int),
            ),
            final(self).heap@ == old(self).heap@ + record_bytes(key@, value@, key_type),
            final(self).slots@[at as int].occupied(),
    {
        proof {
            crate::placement::lemma_probe_end(self.slots@, self.heap@, key@, hash, 0);
            lemma_code_round_trip(key_type);
        }
        let offset: u64 = self.heap.len() as u64;
        self.heap.extend_from_slice(key);
        let mut inline: u64 = 0;
        if key_type.is_scalar() && value.len() <= 8 {
            inline = read_le(value, 0, value.len());
            proof {
                assert(value@.subrange(0, value@.len() as int) =~= value@);
                lemma_bytes_round_trip(value@);
                lemma_le_value_bound(value@);
                lemma_pow256_grows(value@.len(), 8);
                lemma_pow256_values();
            }
        } else {
            self.heap.extend_from_slice(value);
        }
        let slot = Slot {
            tag: key_type.code() + 1,
            hash,
            offset,
            key_len: key.len() as u64,
            value_len: value.len() as u64,
            inline,
        };
        self.slots.set(at, slot);
        proof {
            assert(slot == record_slot(key@, value@, key_type, old(self).heap@.len() as int));
            assert(self.heap@ =~= old(self).heap@ + record_bytes(key@, value@, key_type));
            assert(extends(self.heap@, old(self).heap@));
            assert(slot.key_type() == Some(key_type));
            assert(slot.key(self.heap@) =~= key@);
            assert(slot.value(self.heap@) =~= value@);
            lemma_store(
                old(self).slots@,
                old(self).heap@,
                self.slots@,
                self.heap@,
                at as int,
                key@,
            );
        }
    }

    /// The type of the value that the occupied slot `i` holds.
    pub fn type_at(&self, i: usize) -> (key_type: KeyType)
        requires
            self.valid(),
            i < self.slots@.len(),
            self.slots@[i as int].occupied(),
        ensures
            key_type == self.slots@[i as int].entry(self.heap@).key_type,
    {
        let slot: Slot = self.slots[i];
        assert(slot.fits(self.heap@.len() as int));
        match KeyType::from_code(slot.tag - 1) {
            Some(t) => t,
            None => KeyType::String,
        }
    }

    /// The value that the occupied slot `i` holds.
    pub fn value_at(&self, i: usize) -> (value: Vec<u8>)
        requires
            self.valid(),
            i < self.slots@.len(),
            self.slots@[i as int].occupied(),
        ensures
            value@ == self.slots@[i as int].entry(self.heap@).value,
    {
        let slot: Slot = self.slots[i];
        assert(slot.fits(self.heap@.len() as int));
        let key_type = self.type_at(i);
        assert(self.heap@.len() == self.heap.len());
        if key_type.is_scalar() && slot.value_len <= INLINE_WIDTH {
            let mut value: Vec<u8> = Vec::new();
            write_le(&mut value, slot.inline, slot.value_len as usize);
            proof {
                assert(value@ =~= le_bytes(slot.inline as nat, slot.value_len as nat));
            }
            value
        } else {
            let start: usize = (slot.offset + slot.key_len) as usize;
            copy_range(self.heap.as_slice(), start, slot.value_len as usize)
        }
    }

    /// The number that the first `width` bytes of the value of the occupied
    /// slot `i` spell.
    pub fn bits_at(&self, i: usize, width: usize) -> (bits: u64)
        requires
            self.valid(),
            i < self.slots@.len(),
            self.slots@[i as int].occupied(),
            width <= 8,
        ensures
            bits == scalar_bits(self.slots@[i as int].entry(self.heap@).value, width as int),
    {
        let slot: Slot = self.slots[i];
        assert(slot.fits(self.heap@.len() as int));
        let key_type = self.type_at(i);
        assert(self.heap@.len() == self.heap.len());
        let ghost value = slot.value(self.heap@);
        if key_type.is_scalar() && slot.value_len <= INLINE_WIDTH {
            let n: usize = if (slot.value_len as usize) < width {
                slot.value_len as usize
            } else {
                width
            };
            proof {
                lemma_le_bytes_len(slot.inline as nat, slot.value_len as nat);
                lemma_le_bytes_prefix(slot.inline as nat, slot.value_len as nat, n as nat);
                lemma_low_bytes_value(slot.inline as nat, n as nat);
            }
            low_bytes(slot.inline, n)
        } else {
            let n: usize = if slot.value_len < width as u64 {
                slot.value_len as usize
            } else {
                width
            };
            let start: usize = (slot.offset + slot.key_len) as usize;
            proof {
                assert(value.subrange(0, n as int) =~= self.heap@.subrange(start as int, start + n));
            }
            read_le(self.heap.as_slice(), start, n)
        }
    }

    /// The slot that holds `key`, if one does.
    pub fn find(&self, key: &[u8]) -> (at: Option<usize>)
        requires
            self.valid(),
        ensures
            match at {
                Some(i) => {
                    &&& lookup(self.slots@, self.heap@, key@) == ProbeEnd::Found(i as int)
                    &&& i < self.slots@.len()
                    &&& self.slots@[i as int].occupied()
                },
                None => !(lookup(self.slots@, self.heap@, key@) is Found),
            },
    {
        let hash = crate::hash::hash_key(key);
        proof {
            crate::placement::lemma_probe_end(self.slots@, self.heap@, key@, hash, 0);
        }
        match self.locate(key, hash) {
            Probe::Found(i) => Some(i),
            _ => None,
        }
    }

    /// Looks `key` up: its type and value, or `None` where the table does not
    /// hold it.
    pub fn get(&self, key: &[u8]) -> (found: Option<(KeyType, Vec<u8>)>)
        requires
            self.valid(),
        ensures
            found is Some <==> self@.contains_key(key@),
            found is Some ==> self@[key@] == (Entry {
                key_type: found.unwrap().0,
                value: found.unwrap().1@,
            }),
    {
        match self.find(key) {
            Some(i) => Some((self.type_at(i), self.value_at(i))),
            None => None,
        }
    }

    /// Runs the probe sequence of `key`, whose hash is `hash`.
    pub fn locate(&self, key: &[u8], hash: u64) -> (end: Probe)
        requires
            self.valid(),
        ensures
            end@ == probe_from(self.slots@, self.heap@, key@, hash, 0),
    {
        let cap: usize = self.slots.len();
        let home: usize = (hash % (cap as u64)) as usize;
        let mut d: usize = 0;
        while d < cap
            invariant
                self.valid(),
                cap == self.slots@.len(),
                home == home_slot(hash, cap as int),
                0 <= home < cap,
                d <= cap,
                probe_from(self.slots@, self.heap@, key@, hash, 0) == probe_from(
                    self.slots@,
                    self.heap@,
                    key@,
                    hash,
                    d as int,
                ),
            decreases cap - d,
        {
            let i: usize = if d < cap - home {
                home + d
            } else {
                d - (cap - home)
            };
            assert(i == probe_index(home as int, d as int, cap as int));
            let slot: Slot = self.slots[i];
            if slot.tag == 0 {
                return Probe::Vacant(i);
            }
            assert(slot.fits(self.heap@.len() as int));
            assert(slot.offset + slot.key_len <= self.heap@.len());
            if slot.hash == hash && slot.key_len == key.len() as u64 {
                assert(self.heap@.len() == self.heap.len());
                let start: usize = slot.offset as usize;
                let same = heap_matches(&self.heap, start, key);
                assert(start == slot.offset && key@.len() == slot.key_len);
                assert(same == slot.holds(self.heap@, key@, hash));
                if same {
                    return Probe::Found(i);
                }
            } else {
                assert(!slot.holds(self.heap@, key@, hash)) by {
                    if slot.hash == hash {
                        assert(slot.key(self.heap@).len() == slot.key_len);
                    }
                }
            }
            d = d + 1;
        }
        Probe::Exhausted
    }
}

} // verus!
