use axoncache::format::{decode, encode, FORMAT_VERSION, HEADER_LEN, IMAGE_MAGIC, SLOT_LEN};
use axoncache::hash::{hash_key, HASH_FUNCTION_ID};
use axoncache::table::{CacheTable, Probe, Slot};
use axoncache::{CacheWriter, CacheWriterOptions, KeyType};

fn words(values: &[u64]) -> Vec<u8> {
    values.iter().flat_map(|v| v.to_le_bytes()).collect()
}

fn header(bits: u64, slots: u64, heap: u64) -> Vec<u8> {
    words(&[IMAGE_MAGIC, FORMAT_VERSION, HASH_FUNCTION_ID, bits, slots, heap])
}

fn small_image() -> Vec<u8> {
    let mut w = CacheWriter::new(CacheWriterOptions {
        number_of_key_slots: 1,
        offset_bits: 16,
        ..Default::default()
    })
    .unwrap();
    w.insert_key(b"key", b"value", KeyType::String).unwrap();
    w.finish_cache_creation(1).unwrap();
    w.cache_image().clone()
}

#[test]
fn an_image_is_header_slot_table_and_heap() {
    let image = small_image();
    let mut expected = header(16, 1, 8);
    // The slot: hash, tag 1 (String) above 16 offset bits with offset 0,
    // key length, value length, no inline value.
    expected.extend(words(&[hash_key(b"key"), 1u64 << 16, 3, 5, 0]));
    expected.extend_from_slice(b"keyvalue");
    assert_eq!(image, expected);
    assert_eq!(image.len(), HEADER_LEN + SLOT_LEN + 8);
}

#[test]
fn a_scalar_of_at_most_eight_bytes_stays_in_its_slot() {
    let mut w = CacheWriter::new(CacheWriterOptions {
        number_of_key_slots: 1,
        offset_bits: 20,
        ..Default::default()
    })
    .unwrap();
    w.insert_key(b"n", &0x0102_0304i32.to_le_bytes(), KeyType::Integer).unwrap();
    w.finish_cache_creation(1).unwrap();
    let mut expected = header(20, 1, 1);
    expected.extend(words(&[hash_key(b"n"), 2u64 << 20, 1, 4, 0x0102_0304]));
    expected.extend_from_slice(b"n");
    assert_eq!(w.cache_image(), &expected);
}

#[test]
fn a_scalar_of_more_than_eight_bytes_goes_to_the_heap() {
    let mut w = CacheWriter::new(CacheWriterOptions {
        number_of_key_slots: 1,
        offset_bits: 20,
        ..Default::default()
    })
    .unwrap();
    w.insert_key(b"n", b"123456789", KeyType::Long).unwrap();
    w.finish_cache_creation(1).unwrap();
    let mut expected = header(20, 1, 10);
    expected.extend(words(&[hash_key(b"n"), 3u64 << 20, 1, 9, 0]));
    expected.extend_from_slice(b"n123456789");
    assert_eq!(w.cache_image(), &expected);
}

#[test]
fn a_replaced_entry_gets_a_new_record() {
    let mut w = CacheWriter::new(CacheWriterOptions {
        number_of_key_slots: 1,
        offset_bits: 16,
        ..Default::default()
    })
    .unwrap();
    w.insert_key(b"k", b"old", KeyType::String).unwrap();
    w.insert_key(b"k", b"new!", KeyType::String).unwrap();
    w.finish_cache_creation(1).unwrap();
    let mut expected = header(16, 1, 9);
    expected.extend(words(&[hash_key(b"k"), (1u64 << 16) + 4, 1, 4, 0]));
    expected.extend_from_slice(b"koldknew!");
    assert_eq!(w.cache_image(), &expected);
}

#[test]
fn an_image_decodes_to_the_table_it_was_written_from() {
    let image = small_image();
    let table = decode(&image).expect("a written image is an image");
    assert_eq!(table.slots.len(), 1);
    assert_eq!(table.heap, b"keyvalue".to_vec());
    let slot = table.slots[0];
    assert_eq!(
        (slot.tag, slot.hash, slot.offset, slot.key_len, slot.value_len, slot.inline),
        (1, hash_key(b"key"), 0, 3, 5, 0)
    );
    assert_eq!(encode(&table, 16), image);
    let found = table.get(b"key").expect("the key is there");
    assert_eq!(found, (KeyType::String, b"value".to_vec()));
    assert!(table.get(b"kez").is_none());
    assert!(matches!(table.locate(b"key", hash_key(b"key")), Probe::Found(0)));
    assert!(matches!(table.locate(b"kez", hash_key(b"kez")), Probe::Exhausted));
}

#[test]
fn a_table_reads_slot_by_slot() {
    let mut w = CacheWriter::new(CacheWriterOptions {
        number_of_key_slots: 4,
        offset_bits: 16,
        ..Default::default()
    })
    .unwrap();
    w.insert_key(b"n", &0x0102_0304i32.to_le_bytes(), KeyType::Integer).unwrap();
    w.insert_key(b"text", b"0123456789", KeyType::String).unwrap();
    w.finish_cache_creation(1).unwrap();
    let table = decode(w.cache_image()).unwrap();
    let n = table.find(b"n").expect("the key is there");
    assert_eq!(table.type_at(n), KeyType::Integer);
    assert_eq!(table.value_at(n), vec![4, 3, 2, 1]);
    assert_eq!(table.bits_at(n, 0), 0);
    assert_eq!(table.bits_at(n, 1), 0x04);
    assert_eq!(table.bits_at(n, 2), 0x0304);
    assert_eq!(table.bits_at(n, 4), 0x0102_0304);
    assert_eq!(table.bits_at(n, 8), 0x0102_0304);
    let t = table.find(b"text").expect("the key is there");
    assert_ne!(t, n);
    assert_eq!(table.type_at(t), KeyType::String);
    assert_eq!(table.value_at(t), b"0123456789".to_vec());
    assert_eq!(table.bits_at(t, 1), 0x30);
    assert_eq!(table.bits_at(t, 4), 0x3332_3130);
    assert_eq!(table.bits_at(t, 8), 0x3736_3534_3332_3130);
    assert_eq!(table.find(b"tex"), None);
    assert_eq!(table.find(b""), None);
}

#[test]
fn an_empty_table_has_an_image() {
    let table = CacheTable::new(3).unwrap();
    let image = encode(&table, 35);
    let mut expected = header(35, 3, 0);
    expected.extend(vec![0u8; 3 * SLOT_LEN]);
    assert_eq!(image, expected);
    let back = decode(&image).unwrap();
    assert_eq!(back.slots.len(), 3);
    assert!(back.get(b"anything").is_none());
    assert!(matches!(back.locate(b"anything", hash_key(b"anything")), Probe::Vacant(_)));
    assert!(CacheTable::new(0).is_none());
}

#[test]
fn bytes_that_are_no_image_are_refused() {
    let good = small_image();
    assert!(decode(&good).is_some());
    assert!(decode(b"").is_none());
    assert!(decode(&good[..HEADER_LEN - 1]).is_none());
    // Truncated and extended images.
    assert!(decode(&good[..good.len() - 1]).is_none());
    let mut longer = good.clone();
    longer.push(0);
    assert!(decode(&longer).is_none());
    // Each header field.
    for (at, value) in [(0usize, 0u64), (8, 2), (16, 9), (24, 0), (24, 62), (32, 0), (32, 2), (40, 7)] {
        let mut bad = good.clone();
        bad[at..at + 8].copy_from_slice(&value.to_le_bytes());
        assert!(decode(&bad).is_none(), "field at {} set to {}", at, value);
    }
}

#[test]
fn an_image_of_any_accepted_width_is_read() {
    for bits in [1u8, 2, 8, 15, 16, 35, 56, 57, 61] {
        let mut table = CacheTable::new(2).unwrap();
        let at = match table.locate(b"k", hash_key(b"k")) {
            Probe::Vacant(i) => i,
            _ => panic!("an empty table has room"),
        };
        table.put(at, b"k", b"", KeyType::Vector, hash_key(b"k"));
        let image = encode(&table, bits);
        assert_eq!(image[24..32], (bits as u64).to_le_bytes());
        // Tag 6 (Vector) above the offset bits, offset 0.
        let slot = HEADER_LEN + at * SLOT_LEN;
        assert_eq!(image[slot + 8..slot + 16], (6u64 << bits).to_le_bytes());
        let back = decode(&image).expect("a written image is an image");
        assert_eq!(back.get(b"k"), Some((KeyType::Vector, Vec::new())));
    }
}

#[test]
fn records_that_do_not_fit_are_refused() {
    let good = small_image();
    let slot = HEADER_LEN;
    // A tag above 7.
    let mut bad = good.clone();
    bad[slot + 8..slot + 16].copy_from_slice(&(8u64 << 16).to_le_bytes());
    assert!(decode(&bad).is_none());
    // An offset that leaves no room for the key.
    let mut bad = good.clone();
    bad[slot + 8..slot + 16].copy_from_slice(&((1u64 << 16) + 6).to_le_bytes());
    assert!(decode(&bad).is_none());
    // A key longer than the heap.
    let mut bad = good.clone();
    bad[slot + 16..slot + 24].copy_from_slice(&9u64.to_le_bytes());
    assert!(decode(&bad).is_none());
    // A value longer than what follows the key.
    let mut bad = good.clone();
    bad[slot + 24..slot + 32].copy_from_slice(&6u64.to_le_bytes());
    assert!(decode(&bad).is_none());
    // Lengths whose sum overflows.
    let mut bad = good.clone();
    bad[slot + 24..slot + 32].copy_from_slice(&u64::MAX.to_le_bytes());
    assert!(decode(&bad).is_none());
    // A scalar of at most eight bytes needs no room in the heap.
    let mut inline = good.clone();
    inline[slot + 8..slot + 16].copy_from_slice(&((2u64 << 16) + 5).to_le_bytes());
    inline[slot + 24..slot + 32].copy_from_slice(&8u64.to_le_bytes());
    assert!(decode(&inline).is_some());
}

#[test]
fn a_record_with_tag_zero_is_an_empty_slot() {
    let mut image = header(16, 2, 0);
    image.extend(words(&[77, 5, 9, 9, 9]));
    image.extend(words(&[0, 0, 0, 0, 0]));
    let table = decode(&image).unwrap();
    let blank = Slot::vacant();
    for slot in &table.slots {
        assert_eq!(
            (slot.tag, slot.hash, slot.offset, slot.key_len, slot.value_len, slot.inline),
            (blank.tag, blank.hash, blank.offset, blank.key_len, blank.value_len, blank.inline)
        );
    }
}
