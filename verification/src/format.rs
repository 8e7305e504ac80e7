//! The cache image: the bytes of one generation.
//!
//! An image is a header of six numbers, the slot table as fixed-size records,
//! and the value heap.  Every number is eight bytes, little-endian.  A slot
//! record packs the value's type tag and the record's heap offset into one
//! word: the offset in the low `offset_bits` bits, the tag above them.

use vstd::prelude::*;
use vstd::arithmetic::div_mod::lemma_fundamental_div_mod_converse;
use crate::codec::{
    copy_range, le_bytes, le_value, lemma_le_bytes_len, lemma_pow256_values, lemma_two_to_grows,
    lemma_value_round_trip, power_of_two, read_le, two_to, write_le,
};
use crate::hash::HASH_FUNCTION_ID;
use crate::key_type::KeyType;
use crate::table::{arena_valid, blank_slot, table_view, CacheTable, Entry, Slot, INLINE_WIDTH};

verus! {

/// The first number of every image.
pub const IMAGE_MAGIC: u64 = 0x4548_4341_434e_5841;

/// The version of the image layout.
pub const FORMAT_VERSION: u64 = 1;

/// The length of the header, in bytes.
pub const HEADER_LEN: usize = 48;

/// The length of a slot record, in bytes.
pub const SLOT_LEN: usize = 40;

/// The smallest number of offset bits of an image.
pub const MIN_IMAGE_BITS: u64 = 1;

/// The largest number of offset bits of an image: the widest offset that
/// leaves the slot word room for the type tag.
pub const MAX_IMAGE_BITS: u64 = 61;

/// The eight bytes of a number.
pub open spec fn word(v: nat) -> Seq<u8> {
    le_bytes(v, 8)
}

/// The number in the eight bytes of `bytes` from `pos` on.
pub open spec fn word_at(bytes: Seq<u8>, pos: int) -> nat {
    le_value(bytes.subrange(pos, pos + 8))
}

/// The word that packs a tag and an offset.
pub open spec fn pack_word(tag: nat, offset: nat, bits: nat) -> nat {
    tag * two_to(bits) + offset
}

/// The header of an image.
pub open spec fn encode_header(bits: nat, slot_count: nat, heap_len: nat) -> Seq<u8> {
    word(IMAGE_MAGIC as nat) + word(FORMAT_VERSION as nat) + word(HASH_FUNCTION_ID as nat) + word(
        bits,
    ) + word(slot_count) + word(heap_len)
}

/// The record of a slot.
pub open spec fn encode_slot(slot: Slot, bits: nat) -> Seq<u8> {
    word(slot.hash as nat) + word(pack_word(slot.tag as nat, slot.offset as nat, bits)) + word(
        slot.key_len as nat,
    ) + word(slot.value_len as nat) + word(slot.inline as nat)
}

/// The records of the slots, in order.
pub open spec fn encode_slots(slots: Seq<Slot>, bits: nat) -> Seq<u8>
    decreases slots.len(),
{
    if slots.len() == 0 {
        Seq::<u8>::empty()
    } else {
        encode_slots(slots.drop_last(), bits) + encode_slot(slots.last(), bits)
    }
}

/// The image of a table.
pub open spec fn encode_image(slots: Seq<Slot>, heap: Seq<u8>, bits: nat) -> Seq<u8> {
    encode_header(bits, slots.len(), heap.len()) + encode_slots(slots, bits) + heap
}

/// The number of offset bits that an image declares.
pub open spec fn image_bits(bytes: Seq<u8>) -> nat {
    word_at(bytes, 24)
}

/// The number of slots that an image declares.
pub open spec fn image_slot_count(bytes: Seq<u8>) -> nat {
    word_at(bytes, 32)
}

/// The heap length that an image declares.
pub open spec fn image_heap_len(bytes: Seq<u8>) -> nat {
    word_at(bytes, 40)
}

/// Where the heap of an image starts.
pub open spec fn image_heap_start(bytes: Seq<u8>) -> int {
    HEADER_LEN + SLOT_LEN * image_slot_count(bytes)
}

/// The tag that the record at `pos` declares.
pub open spec fn record_tag(bytes: Seq<u8>, pos: int, bits: nat) -> nat {
    word_at(bytes, pos + 8) / two_to(bits)
}

/// The slot that the record at `pos` spells.  A record with tag 0 is the blank
/// slot, whatever else it holds.
pub open spec fn decode_slot(bytes: Seq<u8>, pos: int, bits: nat) -> Slot {
    let tag = record_tag(bytes, pos, bits);
    if tag == 0 {
        blank_slot()
    } else {
        Slot {
            tag: tag as u8,
            hash: word_at(bytes, pos) as u64,
            offset: (word_at(bytes, pos + 8) % two_to(bits)) as u64,
            key_len: word_at(bytes, pos + 16) as u64,
            value_len: word_at(bytes, pos + 24) as u64,
            inline: word_at(bytes, pos + 32) as u64,
        }
    }
}

/// Where the record of slot `i` starts.
pub open spec fn record_pos(i: int) -> int {
    HEADER_LEN + SLOT_LEN * i
}

/// The slots of an image.
pub open spec fn image_slots(bytes: Seq<u8>) -> Seq<Slot> {
    Seq::new(
        image_slot_count(bytes),
        |i: int| decode_slot(bytes, record_pos(i), image_bits(bytes)),
    )
}

/// The record of slot `i` has a tag of at most 7, and its slot fits the heap.
pub open spec fn record_ok(bytes: Seq<u8>, i: int) -> bool {
    &&& record_tag(bytes, record_pos(i), image_bits(bytes)) <= 7
    &&& decode_slot(bytes, record_pos(i), image_bits(bytes)).fits(image_heap_len(bytes) as int)
}

/// The heap of an image.
pub open spec fn image_heap(bytes: Seq<u8>) -> Seq<u8> {
    bytes.subrange(image_heap_start(bytes), bytes.len() as int)
}

/// Whether `bytes` is a cache image: the header names this format, this hash
/// function and an accepted number of offset bits; there is at least one
/// slot; the length is that of header, slot table and heap together; and every
/// record has a tag of at most 7 and fits the heap.
pub open spec fn image_ok(bytes: Seq<u8>) -> bool {
    &&& bytes.len() >= HEADER_LEN
    &&& word_at(bytes, 0) == IMAGE_MAGIC
    &&& word_at(bytes, 8) == FORMAT_VERSION
    &&& word_at(bytes, 16) == HASH_FUNCTION_ID
    &&& MIN_IMAGE_BITS <= image_bits(bytes) <= MAX_IMAGE_BITS
    &&& image_slot_count(bytes) >= 1
    &&& bytes.len() == image_heap_start(bytes) + image_heap_len(bytes)
    &&& forall|i: int| 0 <= i < image_slot_count(bytes) ==> #[trigger] record_ok(bytes, i)
}

/// The map that an image stands for.
pub open spec fn image_view(bytes: Seq<u8>) -> Map<Seq<u8>, Entry> {
    table_view(image_slots(bytes), image_heap(bytes))
}

/// A word that lies at `pos` reads back as its number.
pub proof fn lemma_word_reads(bytes: Seq<u8>, pos: int, v: nat)
    requires
        v <= u64::MAX,
        0 <= pos,
        pos + 8 <= bytes.len(),
        bytes.subrange(pos, pos + 8) == word(v),
    ensures
        word_at(bytes, pos) == v,
{
    lemma_pow256_values();
    lemma_value_round_trip(v, 8);
}

/// The slot table of `n` slots takes `n` records.
pub proof fn lemma_slots_len(slots: Seq<Slot>, bits: nat)
    ensures
        encode_slots(slots, bits).len() == SLOT_LEN * slots.len(),
    decreases slots.len(),
{
    if slots.len() > 0 {
        lemma_slots_len(slots.drop_last(), bits);
        let s = slots.last();
        lemma_le_bytes_len(s.hash as nat, 8);
        lemma_le_bytes_len(pack_word(s.tag as nat, s.offset as nat, bits), 8);
        lemma_le_bytes_len(s.key_len as nat, 8);
        lemma_le_bytes_len(s.value_len as nat, 8);
        lemma_le_bytes_len(s.inline as nat, 8);
    }
}

/// The record of slot `i` lies at `SLOT_LEN * i` in the slot table.
pub proof fn lemma_slot_record(slots: Seq<Slot>, bits: nat, i: int)
    requires
        0 <= i < slots.len(),
    ensures
        encode_slots(slots, bits).len() == SLOT_LEN * slots.len(),
        encode_slots(slots, bits).subrange(SLOT_LEN * i, SLOT_LEN * i + SLOT_LEN) == encode_slot(
            slots[i],
            bits,
        ),
    decreases slots.len(),
{
    let front = slots.drop_last();
    lemma_slots_len(slots, bits);
    lemma_slots_len(front, bits);
    let all = encode_slots(slots, bits);
    if i == slots.len() - 1 {
        assert(all.subrange(SLOT_LEN * i, SLOT_LEN * i + SLOT_LEN) =~= encode_slot(slots[i], bits));
    } else {
        lemma_slot_record(front, bits, i);
        assert(front[i] == slots[i]);
        assert(all.subrange(SLOT_LEN * i, SLOT_LEN * i + SLOT_LEN) =~= encode_slots(
            front,
            bits,
        ).subrange(SLOT_LEN * i, SLOT_LEN * i + SLOT_LEN));
    }
}

/// A record that lies at `pos` reads back as its slot.
pub proof fn lemma_slot_reads(slot: Slot, bits: nat, bytes: Seq<u8>, pos: int)
    requires
        0 <= pos,
        pos + SLOT_LEN <= bytes.len(),
        bytes.subrange(pos, pos + SLOT_LEN) == encode_slot(slot, bits),
        bits <= MAX_IMAGE_BITS,
        slot.tag <= 7,
        slot.offset < two_to(bits),
        !slot.occupied() ==> slot == blank_slot(),
    ensures
        record_tag(bytes, pos, bits) == slot.tag,
        decode_slot(bytes, pos, bits) == slot,
{
    let packed = pack_word(slot.tag as nat, slot.offset as nat, bits);
    let limit = two_to(bits);
    lemma_two_to_grows(bits, 61);
    crate::codec::lemma_two_to_61();
    assert(slot.tag * limit <= 7 * limit) by (nonlinear_arith)
        requires
            slot.tag <= 7,
            limit > 0,
    ;
    lemma_le_bytes_len(slot.hash as nat, 8);
    lemma_le_bytes_len(packed, 8);
    lemma_le_bytes_len(slot.key_len as nat, 8);
    lemma_le_bytes_len(slot.value_len as nat, 8);
    lemma_le_bytes_len(slot.inline as nat, 8);
    let record = encode_slot(slot, bits);
    assert(bytes.subrange(pos, pos + 8) =~= record.subrange(0, 8));
    assert(bytes.subrange(pos + 8, pos + 16) =~= record.subrange(8, 16));
    assert(bytes.subrange(pos + 16, pos + 24) =~= record.subrange(16, 24));
    assert(bytes.subrange(pos + 24, pos + 32) =~= record.subrange(24, 32));
    assert(bytes.subrange(pos + 32, pos + 40) =~= record.subrange(32, 40));
    assert(record.subrange(0, 8) =~= word(slot.hash as nat));
    assert(record.subrange(8, 16) =~= word(packed));
    assert(record.subrange(16, 24) =~= word(slot.key_len as nat));
    assert(record.subrange(24, 32) =~= word(slot.value_len as nat));
    assert(record.subrange(32, 40) =~= word(slot.inline as nat));
    lemma_word_reads(bytes, pos, slot.hash as nat);
    lemma_word_reads(bytes, pos + 8, packed);
    lemma_word_reads(bytes, pos + 16, slot.key_len as nat);
    lemma_word_reads(bytes, pos + 24, slot.value_len as nat);
    lemma_word_reads(bytes, pos + 32, slot.inline as nat);
    lemma_fundamental_div_mod_converse(
        packed as int,
        limit as int,
        slot.tag as int,
        slot.offset as int,
    );
}

/// An image reads back as the table it was written from: it is accepted, and
/// its slots, its heap and its number of offset bits are those of the table.
pub proof fn lemma_image_round_trip(slots: Seq<Slot>, heap: Seq<u8>, bits: nat)
    requires
        arena_valid(slots, heap),
        MIN_IMAGE_BITS <= bits <= MAX_IMAGE_BITS,
        offsets_fit(slots, bits),
        slots.len() <= u64::MAX,
        heap.len() <= u64::MAX,
    ensures
        image_ok(encode_image(slots, heap, bits)),
        image_slots(encode_image(slots, heap, bits)) == slots,
        image_heap(encode_image(slots, heap, bits)) == heap,
        image_bits(encode_image(slots, heap, bits)) == bits,
{
    let image = encode_image(slots, heap, bits);
    let header = encode_header(bits, slots.len(), heap.len());
    let records = encode_slots(slots, bits);
    lemma_le_bytes_len(IMAGE_MAGIC as nat, 8);
    lemma_le_bytes_len(FORMAT_VERSION as nat, 8);
    lemma_le_bytes_len(HASH_FUNCTION_ID as nat, 8);
    lemma_le_bytes_len(bits, 8);
    lemma_le_bytes_len(slots.len(), 8);
    lemma_le_bytes_len(heap.len(), 8);
    lemma_slots_len(slots, bits);
    assert(header.len() == HEADER_LEN);
    assert(image.subrange(0, 8) =~= word(IMAGE_MAGIC as nat));
    assert(image.subrange(8, 16) =~= word(FORMAT_VERSION as nat));
    assert(image.subrange(16, 24) =~= word(HASH_FUNCTION_ID as nat));
    assert(image.subrange(24, 32) =~= word(bits));
    assert(image.subrange(32, 40) =~= word(slots.len()));
    assert(image.subrange(40, 48) =~= word(heap.len()));
    lemma_word_reads(image, 0, IMAGE_MAGIC as nat);
    lemma_word_reads(image, 8, FORMAT_VERSION as nat);
    lemma_word_reads(image, 16, HASH_FUNCTION_ID as nat);
    lemma_word_reads(image, 24, bits);
    lemma_word_reads(image, 32, slots.len());
    lemma_word_reads(image, 40, heap.len());
    assert(image_heap(image) =~= heap);
    assert(image_bits(image) == bits);
    assert(image_slot_count(image) == slots.len());
    assert forall|i: int| 0 <= i < slots.len() implies {
        &&& #[trigger] image_slots(image)[i] == slots[i]
        &&& record_ok(image, i)
    } by {
        let slot = slots[i];
        assert(slot.fits(heap.len() as int));
        lemma_slot_record(slots, bits, i);
        assert(image.subrange(record_pos(i), record_pos(i) + SLOT_LEN) =~= records.subrange(
            SLOT_LEN * i,
            SLOT_LEN * i + SLOT_LEN,
        ));
        lemma_two_to_grows(0, bits);
        lemma_slot_reads(slot, bits, image, record_pos(i));
    }
    assert(image_slots(image) =~= slots);
    assert forall|i: int| 0 <= i < image_slot_count(image) implies #[trigger] record_ok(
        image,
        i,
    ) by {
        assert(image_slots(image)[i] == slots[i]);
    }
}

/// Appends the eight bytes of `v`.
pub fn push_word(out: &mut Vec<u8>, v: u64)
    ensures
        final(out)@ == old(out)@ + word(v as nat),
{
    write_le(out, v, 8);
}

/// Reads the number in the eight bytes from `pos` on.
pub fn read_word(bytes: &[u8], pos: usize) -> (v: u64)
    requires
        pos + 8 <= bytes.len(),
    ensures
        v == word_at(bytes@, pos as int),
{
    read_le(bytes, pos, 8)
}

/// Whether every occupied slot has an offset below `2^bits`.
pub open spec fn offsets_fit(slots: Seq<Slot>, bits: nat) -> bool {
    forall|i: int|
        0 <= i < slots.len() && (#[trigger] slots[i]).occupied() ==> slots[i].offset < two_to(bits)
}

/// Writes the image of a table.
pub fn encode(table: &CacheTable, bits: u8) -> (image: Vec<u8>)
    requires
        table.valid(),
        MIN_IMAGE_BITS <= bits <= MAX_IMAGE_BITS,
        offsets_fit(table.slots@, bits as nat),
    ensures
        image@ == encode_image(table.slots@, table.heap@, bits as nat),
{
    let limit: u64 = power_of_two(bits);
    let mut image: Vec<u8> = Vec::new();
    push_word(&mut image, IMAGE_MAGIC);
    push_word(&mut image, FORMAT_VERSION);
    push_word(&mut image, HASH_FUNCTION_ID);
    push_word(&mut image, bits as u64);
    push_word(&mut image, table.slots.len() as u64);
    push_word(&mut image, table.heap.len() as u64);
    let ghost header = encode_header(bits as nat, table.slots@.len(), table.heap@.len());
    assert(image@ =~= header);
    let mut i: usize = 0;
    proof {
        assert(table.slots@.subrange(0, 0) =~= Seq::<Slot>::empty());
    }
    while i < table.slots.len()
        invariant
            i <= table.slots@.len(),
            table.valid(),
            offsets_fit(table.slots@, bits as nat),
            limit == two_to(bits as nat),
            0 < limit <= 0x2000_0000_0000_0000,
            image@ == header + encode_slots(table.slots@.subrange(0, i as int), bits as nat),
        decreases table.slots@.len() - i,
    {
        let slot: Slot = table.slots[i];
        assert(slot.fits(table.heap@.len() as int));
        assert(slot.tag <= 7 && slot.offset < limit) by {
            if !slot.occupied() {
                assert(slot == blank_slot());
            }
        }
        assert(slot.tag * limit + slot.offset <= 0xffff_ffff_ffff_ffff) by (nonlinear_arith)
            requires
                slot.tag <= 7,
                slot.offset < limit,
                0 < limit <= 0x2000_0000_0000_0000,
        ;
        assert(slot.tag * limit <= 0xe000_0000_0000_0000) by (nonlinear_arith)
            requires
                slot.tag <= 7,
                0 < limit <= 0x2000_0000_0000_0000,
        ;
        let packed: u64 = (slot.tag as u64) * limit + slot.offset;
        let ghost before = image@;
        push_word(&mut image, slot.hash);
        push_word(&mut image, packed);
        push_word(&mut image, slot.key_len);
        push_word(&mut image, slot.value_len);
        push_word(&mut image, slot.inline);
        proof {
            let done = table.slots@.subrange(0, i as int);
            let next = table.slots@.subrange(0, i + 1);
            assert(next.drop_last() =~= done);
            assert(next.last() == slot);
            assert(image@ =~= before + encode_slot(slot, bits as nat));
            assert(image@ =~= header + encode_slots(next, bits as nat));
        }
        i = i + 1;
    }
    proof {
        assert(table.slots@.subrange(0, i as int) =~= table.slots@);
    }
    image.extend_from_slice(table.heap.as_slice());
    image
}

/// Whether an occupied slot with a type fits a heap of `heap_len` bytes.
fn slot_fits(slot: &Slot, heap_len: u64) -> (fits: bool)
    requires
        1 <= slot.tag <= 7,
    ensures
        fits == slot.fits(heap_len as int),
{
    let inline: bool = match KeyType::from_code(slot.tag - 1) {
        Some(t) => t.is_scalar() && slot.value_len <= INLINE_WIDTH,
        None => false,
    };
    if slot.offset > heap_len || slot.key_len > heap_len - slot.offset {
        return false;
    }
    inline || slot.value_len <= heap_len - slot.offset - slot.key_len
}

/// Reads a table from its image; `None` where the bytes are no image.
pub fn decode(bytes: &[u8]) -> (table: Option<CacheTable>)
    ensures
        table is Some <==> image_ok(bytes@),
        table is Some ==> {
            let t = table->Some_0;
            &&& t.valid()
            &&& t.slots@ == image_slots(bytes@)
            &&& t.heap@ == image_heap(bytes@)
        },
{
    let len: usize = bytes.len();
    if len < HEADER_LEN {
        return None;
    }
    if read_word(bytes, 0) != IMAGE_MAGIC || read_word(bytes, 8) != FORMAT_VERSION || read_word(
        bytes,
        16,
    ) != HASH_FUNCTION_ID {
        return None;
    }
    let bits: u64 = read_word(bytes, 24);
    let count: u64 = read_word(bytes, 32);
    let heap_len: u64 = read_word(bytes, 40);
    if bits < MIN_IMAGE_BITS || bits > MAX_IMAGE_BITS || count < 1 {
        return None;
    }
    let rest: usize = len - HEADER_LEN;
    if count > (rest / SLOT_LEN) as u64 {
        return None;
    }
    let table_len: usize = SLOT_LEN * (count as usize);
    if heap_len != (rest - table_len) as u64 {
        return None;
    }
    let limit: u64 = power_of_two(bits as u8);
    let mut slots: Vec<Slot> = Vec::new();
    let mut i: usize = 0;
    while i < count as usize
        invariant
            i <= count,
            len == bytes@.len(),
            count == image_slot_count(bytes@),
            bits == image_bits(bytes@),
            heap_len == image_heap_len(bytes@),
            len == HEADER_LEN + SLOT_LEN * count + heap_len,
            limit == two_to(bits as nat),
            limit > 0,
            slots@.len() == i,
            forall|j: int| 0 <= j < i ==> #[trigger] slots@[j] == image_slots(bytes@)[j],
            forall|j: int| 0 <= j < i ==> #[trigger] record_ok(bytes@, j),
        decreases count - i,
    {
        let pos: usize = HEADER_LEN + SLOT_LEN * i;
        assert(pos == record_pos(i as int));
        let packed: u64 = read_word(bytes, pos + 8);
        let tag: u64 = packed / limit;
        if tag > 7 {
            assert(!record_ok(bytes@, i as int));
            return None;
        }
        let slot = if tag == 0 {
            Slot::vacant()
        } else {
            Slot {
                tag: tag as u8,
                hash: read_word(bytes, pos),
                offset: packed % limit,
                key_len: read_word(bytes, pos + 16),
                value_len: read_word(bytes, pos + 24),
                inline: read_word(bytes, pos + 32),
            }
        };
        assert(slot == decode_slot(bytes@, pos as int, bits as nat));
        if tag != 0 && !slot_fits(&slot, heap_len) {
            assert(!record_ok(bytes@, i as int));
            return None;
        }
        assert(record_ok(bytes@, i as int));
        slots.push(slot);
        i = i + 1;
    }
    let heap = copy_range(bytes, HEADER_LEN + table_len, heap_len as usize);
    let table = CacheTable { slots, heap };
    proof {
        assert(table.slots@ =~= image_slots(bytes@));
        assert(table.heap@ =~= image_heap(bytes@));
        assert forall|j: int| 0 <= j < table.slots@.len() implies (#[trigger] table.slots@[j]).fits(
            table.heap@.len() as int,
        ) by {
            assert(record_ok(bytes@, j));
        }
    }
    Some(table)
}

} // verus!
