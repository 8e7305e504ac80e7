use axoncache::{CacheReaderOptions, CacheWriterOptions, KeyType};
use std::time::Duration;

#[test]
fn test_cache_reader_options_default() {
    let options = CacheReaderOptions::default();
    assert_eq!(options.task_name, "");
    assert_eq!(options.destination_folder, "");
    assert_eq!(options.update_period, Duration::from_secs(60));
}

#[test]
fn test_cache_writer_options_default() {
    let options = CacheWriterOptions::default();
    assert_eq!(options.task_name, "");
    assert_eq!(options.destination_folder, "");
    assert_eq!(options.number_of_key_slots, 1000000);
    assert_eq!(options.cache_type, 5);
    assert_eq!(options.offset_bits, 35);
}

#[test]
fn test_key_type_values() {
    assert_eq!(KeyType::String as i8, 0);
    assert_eq!(KeyType::Integer as i8, 1);
    assert_eq!(KeyType::Long as i8, 2);
    assert_eq!(KeyType::Double as i8, 3);
    assert_eq!(KeyType::Bool as i8, 4);
    assert_eq!(KeyType::Vector as i8, 5);
    assert_eq!(KeyType::FloatVector as i8, 6);
}

#[test]
fn reader_options_default_remaining_fields() {
    let options = CacheReaderOptions::default();
    assert_eq!(options.base_urls, "");
    assert!(!options.download_at_init);
    assert_eq!(options.timestamp, "");
    assert!(!options.is_preload_memory_enabled);
}

#[test]
fn options_are_cloned_field_by_field() {
    let reader = CacheReaderOptions {
        task_name: "ads".to_string(),
        update_period: Duration::from_secs(7),
        download_at_init: true,
        ..Default::default()
    };
    let copy = reader.clone();
    assert_eq!(copy.task_name, "ads");
    assert_eq!(copy.update_period, Duration::from_secs(7));
    assert!(copy.download_at_init);
    let writer = CacheWriterOptions { number_of_key_slots: 9, offset_bits: 20, ..Default::default() };
    let copy = writer.clone();
    assert_eq!(copy.number_of_key_slots, 9);
    assert_eq!(copy.offset_bits, 20);
}

#[test]
fn writer_options_default_remaining_fields() {
    let options = CacheWriterOptions::default();
    assert_eq!(options.settings_location, "");
    assert!(options.generate_timestamp_file);
    assert!(options.rename_cache_file);
}

#[test]
fn key_type_codes_and_labels() {
    let all = [
        (KeyType::String, 0u8, "String"),
        (KeyType::Integer, 1, "Integer"),
        (KeyType::Long, 2, "Long"),
        (KeyType::Double, 3, "Double"),
        (KeyType::Bool, 4, "Bool"),
        (KeyType::Vector, 5, "Vector"),
        (KeyType::FloatVector, 6, "FloatVector"),
    ];
    for (t, code, label) in all {
        assert_eq!(t.code(), code);
        assert_eq!(KeyType::from_code(code), Some(t));
        assert_eq!(t.label(), label);
    }
    assert_eq!(KeyType::from_code(7), None);
    assert_eq!(KeyType::from_code(255), None);
    assert!(KeyType::Integer.is_scalar());
    assert!(KeyType::Long.is_scalar());
    assert!(KeyType::Double.is_scalar());
    assert!(KeyType::Bool.is_scalar());
    assert!(!KeyType::String.is_scalar());
    assert!(!KeyType::Vector.is_scalar());
    assert!(!KeyType::FloatVector.is_scalar());
}
