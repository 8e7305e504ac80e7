use axoncache::error::{CODE_INVALID_ARGUMENT, CODE_TABLE_FULL, CODE_UNSEALED_VALUES};
use axoncache::hash::hash_key;
use axoncache::writer::{MAX_OFFSET_BITS, MIN_OFFSET_BITS};
use axoncache::{
    AxonCacheError, CacheReader, CacheReaderOptions, CacheWriter, CacheWriterOptions, KeyType,
    PublishStep,
};

fn options(slots: u64, offset_bits: i32) -> CacheWriterOptions {
    CacheWriterOptions {
        task_name: "task".to_string(),
        destination_folder: "/data".to_string(),
        number_of_key_slots: slots,
        offset_bits,
        ..Default::default()
    }
}

fn writer(slots: u64) -> CacheWriter {
    CacheWriter::new(options(slots, 35)).unwrap()
}

fn open(w: &CacheWriter, timestamp: &str) -> CacheReader {
    let mut reader = CacheReader::new(CacheReaderOptions::default());
    reader.update(timestamp, w.cache_image()).unwrap();
    reader
}

#[test]
fn options_out_of_range_are_refused() {
    assert!(matches!(
        CacheWriter::new(options(0, 35)),
        Err(AxonCacheError::ApiError(CODE_INVALID_ARGUMENT))
    ));
    assert!(matches!(
        CacheWriter::new(options(10, MIN_OFFSET_BITS - 1)),
        Err(AxonCacheError::ApiError(CODE_INVALID_ARGUMENT))
    ));
    assert!(matches!(
        CacheWriter::new(options(10, MAX_OFFSET_BITS + 1)),
        Err(AxonCacheError::ApiError(CODE_INVALID_ARGUMENT))
    ));
    assert!(matches!(
        CacheWriter::new(options(10, -3)),
        Err(AxonCacheError::ApiError(CODE_INVALID_ARGUMENT))
    ));
    assert!(CacheWriter::new(options(1, MIN_OFFSET_BITS)).is_ok());
    assert!(CacheWriter::new(options(1, MAX_OFFSET_BITS)).is_ok());
}

#[test]
fn every_width_of_offset_that_the_slot_word_holds_is_accepted() {
    assert_eq!(MIN_OFFSET_BITS, 1);
    assert_eq!(MAX_OFFSET_BITS, 61);
    for bits in MIN_OFFSET_BITS..=MAX_OFFSET_BITS {
        let mut w = CacheWriter::new(options(4, bits)).unwrap();
        w.insert_key(b"k", b"v", KeyType::String).unwrap();
        w.finish_cache_creation(9).unwrap();
        let r = open(&w, "9");
        assert_eq!(r.get_key("k").unwrap(), "v");
    }
    assert!(CacheWriter::new(options(4, 0)).is_err());
    assert!(CacheWriter::new(options(4, 62)).is_err());
    assert!(CacheWriter::new(options(4, 64)).is_err());
}

#[test]
fn the_narrowest_offset_has_room_for_offsets_zero_and_one() {
    let mut w = CacheWriter::new(options(4, 1)).unwrap();
    // The record of one byte starts at offset 0, the next at offset 1.
    w.insert_key(b"a", &[7], KeyType::Bool).unwrap();
    w.insert_key(b"b", b"", KeyType::String).unwrap();
    // The heap holds two bytes now: offset 2 needs a second bit.
    assert_eq!(w.insert_key(b"c", b"", KeyType::String), Err(AxonCacheError::OffsetBitsError(1)));
    w.finish_cache_creation(9).unwrap();
    let r = open(&w, "9");
    assert_eq!(r.get_bool("a"), Ok(true));
    assert_eq!(r.get_key("b").unwrap(), "");
    assert_eq!(r.contains_key("c"), Ok(false));
}

#[test]
fn a_clock_reading_that_names_no_generation_is_refused() {
    let mut w = writer(4);
    w.insert_key(b"k", b"v", KeyType::String).unwrap();
    for now in [0, i64::MAX as u64 + 1, u64::MAX] {
        assert_eq!(
            w.finish_cache_creation(now),
            Err(AxonCacheError::ApiError(CODE_INVALID_ARGUMENT))
        );
        assert!(w.is_initialized());
        assert!(w.cache_image().is_empty());
        assert_eq!(w.get_last_error(), "C API error: -1");
    }
    // The writer is as it was, and can still be finished.
    w.insert_key(b"l", b"w", KeyType::String).unwrap();
    assert_eq!(w.finish_cache_creation(i64::MAX as u64).unwrap(), "9223372036854775807");
    let r = open(&w, "9223372036854775807");
    assert!(r.is_initialized());
    assert_eq!(r.get_key("k").unwrap(), "v");
    assert_eq!(r.get_key("l").unwrap(), "w");
}

#[test]
fn the_smallest_clock_reading_opens() {
    let mut w = writer(4);
    w.insert_key(b"k", b"v", KeyType::String).unwrap();
    let timestamp = w.finish_cache_creation(1).unwrap();
    assert_eq!(timestamp, "1");
    let r = open(&w, &timestamp);
    assert!(r.is_initialized());
    assert_eq!(r.contains_key("k"), Ok(true));
}

#[test]
fn a_new_writer_is_empty() {
    let w = writer(8);
    assert!(w.is_initialized());
    assert_eq!(w.get_unique_keys(), 0);
    assert_eq!(w.get_max_collisions(), 0);
    assert_eq!(w.get_collisions_counter(), "");
    assert_eq!(w.get_last_error(), "");
    assert_eq!(w.get_version(), "1.0.0");
    assert_eq!(w.get_hash_function(), "fnv1a_64");
    assert!(w.cache_image().is_empty());
    assert!(w.publish_steps().is_empty());
}

#[test]
fn the_empty_key_never_reaches_the_table() {
    let mut w = writer(8);
    for t in [KeyType::String, KeyType::Integer, KeyType::Vector, KeyType::FloatVector] {
        assert_eq!(w.insert_key(b"", b"value", t), Err(AxonCacheError::EmptyKey));
        assert_eq!(w.insert_key(b"", b"", t), Err(AxonCacheError::EmptyKey));
    }
    assert_eq!(w.get_unique_keys(), 0);
    assert_eq!(w.get_last_error(), "Empty key provided");
    let timestamp = w.finish_cache_creation(5).unwrap();
    let r = open(&w, &timestamp);
    assert_eq!(r.contains_key(""), Ok(false));
    assert_eq!(r.get_key(""), Err(AxonCacheError::NotFound));
}

#[test]
fn the_last_insert_of_a_key_wins() {
    let mut w = writer(8);
    w.insert_key(b"k", b"first", KeyType::String).unwrap();
    w.insert_key(b"other", b"o", KeyType::String).unwrap();
    w.insert_key(b"k", &7i32.to_le_bytes(), KeyType::Integer).unwrap();
    assert_eq!(w.get_unique_keys(), 2);
    let timestamp = w.finish_cache_creation(5).unwrap();
    let r = open(&w, &timestamp);
    assert_eq!(r.get_int("k"), Ok(7));
    assert_eq!(r.get_key_type("k").unwrap(), "Integer");
    assert_eq!(r.get_key("other").unwrap(), "o");
}

#[test]
fn a_full_table_refuses_new_keys_and_keeps_the_old() {
    let mut w = writer(2);
    w.insert_key(b"one", b"1", KeyType::String).unwrap();
    w.insert_key(b"two", b"2", KeyType::String).unwrap();
    assert_eq!(
        w.insert_key(b"three", b"3", KeyType::String),
        Err(AxonCacheError::ApiError(CODE_TABLE_FULL))
    );
    assert_eq!(w.get_last_error(), "C API error: 1");
    assert_eq!(w.get_unique_keys(), 2);
    // A key that is already there can still be given a new value.
    w.insert_key(b"one", b"uno", KeyType::String).unwrap();
    assert_eq!(w.get_unique_keys(), 2);
    let timestamp = w.finish_cache_creation(5).unwrap();
    let r = open(&w, &timestamp);
    assert_eq!(r.get_key("one").unwrap(), "uno");
    assert_eq!(r.get_key("two").unwrap(), "2");
    assert_eq!(r.get_key("three"), Err(AxonCacheError::NotFound));
}

#[test]
fn an_offset_beyond_the_offset_bits_is_refused() {
    let mut w = CacheWriter::new(options(16, 16)).unwrap();
    w.insert_key(b"age", &32i32.to_le_bytes(), KeyType::Integer).unwrap();
    // The heap now holds 3 bytes; this entry starts at offset 3 and ends past 2^16.
    let big = vec![b'x'; 70_000];
    w.insert_key(b"big", &big, KeyType::String).unwrap();
    // The next entry would start at offset 3 + 3 + 70000 = 70006 >= 65536.
    assert_eq!(
        w.insert_key(b"late", b"v", KeyType::String),
        Err(AxonCacheError::OffsetBitsError(16))
    );
    assert_eq!(w.get_last_error(), "Offset bits error: 16");
    // Replacing a key that is there needs a new record too.
    assert_eq!(
        w.insert_key(b"age", &1i32.to_le_bytes(), KeyType::Integer),
        Err(AxonCacheError::OffsetBitsError(16))
    );
    assert_eq!(w.get_unique_keys(), 2);
    let timestamp = w.finish_cache_creation(5).unwrap();
    let r = open(&w, &timestamp);
    assert_eq!(r.get_int("age"), Ok(32));
    assert_eq!(r.get_key("big").unwrap().len(), 70_000);
    assert_eq!(r.contains_key("late"), Ok(false));
}

#[test]
fn the_last_offset_that_fits_is_accepted() {
    let mut w = CacheWriter::new(options(16, 16)).unwrap();
    // One record of 65535 bytes: key of 1 byte and value of 65534 bytes.
    let filler = vec![b'y'; 65_534];
    w.insert_key(b"f", &filler, KeyType::String).unwrap();
    // Offset 65535 is the largest that 16 bits express.
    w.insert_key(b"edge", b"ok", KeyType::String).unwrap();
    assert_eq!(
        w.insert_key(b"over", b"no", KeyType::String),
        Err(AxonCacheError::OffsetBitsError(16))
    );
    let timestamp = w.finish_cache_creation(5).unwrap();
    let r = open(&w, &timestamp);
    assert_eq!(r.get_key("edge").unwrap(), "ok");
}

#[test]
fn collisions_are_counted_by_probe_depth() {
    let slots: u64 = 5;
    let keys: [&[u8]; 5] = [b"alpha", b"beta", b"gamma", b"delta", b"epsilon"];
    // Linear probing, replayed by hand.
    let mut taken = [false; 5];
    let mut depths: Vec<u64> = Vec::new();
    for key in keys {
        let home = (hash_key(key) % slots) as usize;
        let mut depth = 0usize;
        while taken[(home + depth) % 5] {
            depth += 1;
        }
        taken[(home + depth) % 5] = true;
        depths.push(depth as u64);
    }
    let max = *depths.iter().max().unwrap();
    let mut counts = vec![0u64; max as usize + 1];
    for d in &depths {
        counts[*d as usize] += 1;
    }
    let text: Vec<String> =
        counts.iter().enumerate().map(|(d, c)| format!("{}:{}", d, c)).collect();

    let mut w = writer(slots);
    for key in keys {
        w.insert_key(key, b"v", KeyType::String).unwrap();
    }
    assert_eq!(w.get_unique_keys(), 5);
    assert_eq!(w.get_max_collisions(), max);
    assert_eq!(w.get_collisions_counter(), text.join(","));
    // Replacing a value counts no key again.
    w.insert_key(b"alpha", b"w", KeyType::String).unwrap();
    assert_eq!(w.get_collisions_counter(), text.join(","));
    assert_eq!(w.get_max_collisions(), max);
}

#[test]
fn one_key_in_one_slot_has_depth_zero() {
    let mut w = writer(1);
    w.insert_key(b"only", b"v", KeyType::String).unwrap();
    assert_eq!(w.get_max_collisions(), 0);
    assert_eq!(w.get_collisions_counter(), "0:1");
}

#[test]
fn a_value_with_a_nul_byte_is_not_staged() {
    let mut w = writer(8);
    assert_eq!(w.add_duplicate_value("a\0b", KeyType::String), Err(AxonCacheError::NulError));
    assert_eq!(w.get_last_error(), "Nul byte error");
    w.add_duplicate_value("ok", KeyType::String).unwrap();
    w.finish_add_duplicate_values().unwrap();
    w.insert_key(b"list", b"", KeyType::Vector).unwrap();
    let timestamp = w.finish_cache_creation(5).unwrap();
    let r = open(&w, &timestamp);
    assert_eq!(r.get_vector("list").unwrap(), vec!["ok".to_string()]);
}

#[test]
fn a_vector_keeps_the_order_of_its_values() {
    let mut w = writer(8);
    w.add_duplicate_value("apple", KeyType::String).unwrap();
    w.add_duplicate_value("banana", KeyType::String).unwrap();
    w.add_duplicate_value("cherry", KeyType::String).unwrap();
    w.finish_add_duplicate_values().unwrap();
    w.insert_key(b"fruits", b"", KeyType::Vector).unwrap();
    let timestamp = w.finish_cache_creation(5).unwrap();
    let r = open(&w, &timestamp);
    assert_eq!(
        r.get_vector("fruits").unwrap(),
        vec!["apple".to_string(), "banana".to_string(), "cherry".to_string()]
    );
    assert_eq!(r.get_key_type("fruits").unwrap(), "Vector");
}

#[test]
fn sealing_nothing_changes_nothing() {
    let mut w = writer(8);
    w.finish_add_duplicate_values().unwrap();
    w.insert_key(b"empty", b"", KeyType::Vector).unwrap();
    w.add_duplicate_value("x", KeyType::String).unwrap();
    w.finish_add_duplicate_values().unwrap();
    // Nothing is staged now: the sealed list stays as it is.
    w.finish_add_duplicate_values().unwrap();
    w.insert_key(b"one", b"", KeyType::Vector).unwrap();
    // The sealed list is used up.
    w.insert_key(b"none", b"", KeyType::Vector).unwrap();
    let timestamp = w.finish_cache_creation(5).unwrap();
    let r = open(&w, &timestamp);
    assert_eq!(r.get_vector("empty").unwrap(), Vec::<String>::new());
    assert_eq!(r.get_vector("one").unwrap(), vec!["x".to_string()]);
    assert_eq!(r.get_vector("none").unwrap(), Vec::<String>::new());
}

#[test]
fn a_later_seal_replaces_the_sealed_list() {
    let mut w = writer(8);
    w.add_duplicate_value("old", KeyType::String).unwrap();
    w.finish_add_duplicate_values().unwrap();
    w.add_duplicate_value("new", KeyType::String).unwrap();
    w.add_duplicate_value("newer", KeyType::String).unwrap();
    w.finish_add_duplicate_values().unwrap();
    w.insert_key(b"list", b"", KeyType::FloatVector).unwrap();
    let timestamp = w.finish_cache_creation(5).unwrap();
    let r = open(&w, &timestamp);
    assert_eq!(r.get_vector("list").unwrap(), vec!["new".to_string(), "newer".to_string()]);
}

#[test]
fn only_an_empty_vector_value_takes_the_sealed_list() {
    let mut w = writer(8);
    w.add_duplicate_value("a", KeyType::String).unwrap();
    w.finish_add_duplicate_values().unwrap();
    w.insert_key(b"text", b"", KeyType::String).unwrap();
    w.insert_key(b"given", b"x\0y\0", KeyType::Vector).unwrap();
    w.insert_key(b"taken", b"", KeyType::Vector).unwrap();
    let timestamp = w.finish_cache_creation(5).unwrap();
    let r = open(&w, &timestamp);
    assert_eq!(r.get_key("text").unwrap(), "");
    assert_eq!(r.get_vector("given").unwrap(), vec!["x".to_string(), "y".to_string()]);
    assert_eq!(r.get_vector("taken").unwrap(), vec!["a".to_string()]);
}

#[test]
fn unsealed_values_stop_the_finish() {
    let mut w = writer(8);
    w.insert_key(b"k", b"v", KeyType::String).unwrap();
    w.add_duplicate_value("pending", KeyType::String).unwrap();
    assert_eq!(
        w.finish_cache_creation(5),
        Err(AxonCacheError::ApiError(CODE_UNSEALED_VALUES))
    );
    assert!(w.is_initialized());
    assert_eq!(w.get_last_error(), "C API error: 4");
    w.finish_add_duplicate_values().unwrap();
    assert_eq!(w.finish_cache_creation(5).unwrap(), "5");
    assert!(!w.is_initialized());
}

#[test]
fn a_finished_writer_accepts_nothing_more() {
    let mut w = writer(8);
    w.insert_key(b"k", b"v", KeyType::String).unwrap();
    let timestamp = w.finish_cache_creation(1_700_000_000_123).unwrap();
    assert_eq!(timestamp, "1700000000123");
    assert!(!w.is_initialized());
    let image = w.cache_image().clone();
    assert_eq!(w.insert_key(b"x", b"y", KeyType::String), Err(AxonCacheError::UnInitialized));
    assert_eq!(w.insert_key(b"", b"y", KeyType::String), Err(AxonCacheError::UnInitialized));
    assert_eq!(w.finish_add_duplicate_values(), Err(AxonCacheError::UnInitialized));
    assert_eq!(w.finish_cache_creation(9), Err(AxonCacheError::UnInitialized));
    assert_eq!(w.get_last_error(), "Cache is not initialized");
    assert_eq!(w.cache_image(), &image);
    assert_eq!(w.get_unique_keys(), 1);
}

#[test]
fn publishing_writes_then_marks_then_renames() {
    let mut w = writer(4);
    w.insert_key(b"k", b"v", KeyType::String).unwrap();
    w.finish_cache_creation(1_700_000_000_123).unwrap();
    let steps = w.publish_steps();
    assert_eq!(steps.len(), 3);
    match &steps[0] {
        PublishStep::WriteFile { path, contents } => {
            assert_eq!(path, "/data/task.cache");
            assert_eq!(contents, w.cache_image());
        }
        _ => panic!("expected the image to be written first"),
    }
    match &steps[1] {
        PublishStep::WriteFile { path, contents } => {
            assert_eq!(path, "/data/task.cache.timestamp.latest");
            assert_eq!(contents, b"1700000000123");
        }
        _ => panic!("expected the marker to be written second"),
    }
    match &steps[2] {
        PublishStep::Rename { from, to } => {
            assert_eq!(from, "/data/task.cache");
            assert_eq!(to, "/data/task.1700000000123.cache");
        }
        _ => panic!("expected the rename last"),
    }
}

#[test]
fn publishing_leaves_out_what_was_not_asked_for() {
    let mut quiet = options(4, 35);
    quiet.generate_timestamp_file = false;
    quiet.rename_cache_file = false;
    let mut w = CacheWriter::new(quiet).unwrap();
    w.finish_cache_creation(1).unwrap();
    let steps = w.publish_steps();
    assert_eq!(steps.len(), 1);
    assert!(matches!(&steps[0], PublishStep::WriteFile { path, .. } if path == "/data/task.cache"));

    let mut no_marker = options(4, 35);
    no_marker.generate_timestamp_file = false;
    let mut w = CacheWriter::new(no_marker).unwrap();
    w.finish_cache_creation(1).unwrap();
    let steps = w.publish_steps();
    assert_eq!(steps.len(), 2);
    assert!(matches!(&steps[1], PublishStep::Rename { to, .. } if to == "/data/task.1.cache"));
}

#[test]
fn the_settings_file_is_named_after_the_task_unless_given() {
    let mut o = options(4, 35);
    assert_eq!(CacheWriter::settings_location(&o), "/data/task.properties");
    o.settings_location = "/etc/cache.properties".to_string();
    assert_eq!(CacheWriter::settings_location(&o), "/etc/cache.properties");
}
