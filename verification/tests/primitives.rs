use axoncache::codec::{copy_range, low_bytes, power_of_two, read_le, write_le};
use axoncache::error::AxonCacheError;
use axoncache::hash::{hash_function_name, hash_key};
use axoncache::layout::{
    generation_file_name, latest_marker_name, settings_file_name, settings_lines,
    working_file_name,
};
use axoncache::list::{decode_items, encode_items, has_nul};
use axoncache::text::{
    decimal_string, digit_text, parse_i64, push_decimal, push_signed_decimal, trim,
};

#[test]
fn hash_matches_the_published_fnv1a_vectors() {
    assert_eq!(hash_key(b""), 0xcbf2_9ce4_8422_2325);
    assert_eq!(hash_key(b"a"), 0xaf63_dc4c_8601_ec8c);
    assert_eq!(hash_key(b"foobar"), 0x8594_4171_f739_67e8);
    assert_eq!(hash_function_name(), "fnv1a_64");
}

#[test]
fn little_endian_words_read_back() {
    let mut out = vec![0xffu8];
    write_le(&mut out, 0x0102_0304_0506_0708, 8);
    assert_eq!(out, vec![0xff, 8, 7, 6, 5, 4, 3, 2, 1]);
    assert_eq!(read_le(&out, 1, 8), 0x0102_0304_0506_0708);
    assert_eq!(read_le(&out, 1, 2), 0x0708);
    assert_eq!(read_le(&out, 1, 0), 0);
    let mut short = Vec::new();
    write_le(&mut short, 0x1234_5678, 2);
    assert_eq!(short, vec![0x78, 0x56]);
    write_le(&mut short, 7, 0);
    assert_eq!(short, vec![0x78, 0x56]);
    assert_eq!(read_le(&[0xff; 8], 0, 8), u64::MAX);
}

#[test]
fn low_bytes_of_a_number() {
    let v: u64 = 0x1122_3344_5566_7788;
    assert_eq!(low_bytes(v, 0), 0);
    assert_eq!(low_bytes(v, 1), 0x88);
    assert_eq!(low_bytes(v, 4), 0x5566_7788);
    assert_eq!(low_bytes(v, 7), 0x22_3344_5566_7788);
    assert_eq!(low_bytes(v, 8), v);
    assert_eq!(low_bytes(u64::MAX, 8), u64::MAX);
}

#[test]
fn copy_range_takes_the_named_bytes() {
    assert_eq!(copy_range(b"abcdef", 2, 3), b"cde".to_vec());
    assert_eq!(copy_range(b"abcdef", 6, 0), Vec::<u8>::new());
    assert_eq!(copy_range(b"abcdef", 0, 6), b"abcdef".to_vec());
}

#[test]
fn powers_of_two() {
    assert_eq!(power_of_two(0), 1);
    assert_eq!(power_of_two(16), 65536);
    assert_eq!(power_of_two(35), 1u64 << 35);
    assert_eq!(power_of_two(56), 1u64 << 56);
}

#[test]
fn list_payload_is_items_with_nul_terminators() {
    let items = vec![b"apple".to_vec(), b"".to_vec(), b"kiwi".to_vec()];
    let payload = encode_items(&items);
    assert_eq!(payload, b"apple\0\0kiwi\0".to_vec());
    assert_eq!(decode_items(&payload), items);
    assert_eq!(encode_items(&Vec::new()), Vec::<u8>::new());
    assert_eq!(decode_items(b""), Vec::<Vec<u8>>::new());
}

#[test]
fn every_byte_string_reads_as_a_list() {
    assert_eq!(decode_items(b"tail"), vec![b"tail".to_vec()]);
    assert_eq!(decode_items(b"a\0tail"), vec![b"a".to_vec(), b"tail".to_vec()]);
    assert_eq!(decode_items(b"\0"), vec![b"".to_vec()]);
    assert_eq!(decode_items(b"\0\0x"), vec![b"".to_vec(), b"".to_vec(), b"x".to_vec()]);
}

#[test]
fn nul_bytes_are_found() {
    assert!(!has_nul(b""));
    assert!(!has_nul(b"plain"));
    assert!(has_nul(b"\0"));
    assert!(has_nul(b"mid\0dle"));
    assert!(has_nul(b"end\0"));
}

#[test]
fn decimal_numerals() {
    assert_eq!(decimal_string(0), "0");
    assert_eq!(decimal_string(7), "7");
    assert_eq!(decimal_string(10), "10");
    assert_eq!(decimal_string(1234567890), "1234567890");
    assert_eq!(decimal_string(u64::MAX), "18446744073709551615");
    let mut s = String::from("n=");
    push_decimal(&mut s, 42);
    assert_eq!(s, "n=42");
    push_signed_decimal(&mut s, -1);
    assert_eq!(s, "n=42-1");
    let mut t = String::new();
    push_signed_decimal(&mut t, i64::MIN);
    assert_eq!(t, "-9223372036854775808");
    let mut u = String::new();
    push_signed_decimal(&mut u, i64::MAX);
    assert_eq!(u, "9223372036854775807");
}

#[test]
fn integers_are_parsed_like_the_standard_library_parses_them() {
    let cases: [&str; 22] = [
        "0", "7", "123", "+5", "-5", "-0", "+0", "007", "1700000000000",
        "9223372036854775807", "9223372036854775808", "-9223372036854775808",
        "-9223372036854775809", "99999999999999999999999", "", "+", "-", "12a", " 12", "12 ",
        "1_000", "--1",
    ];
    for case in cases {
        assert_eq!(parse_i64(case.as_bytes()), case.parse::<i64>().ok(), "{:?}", case);
    }
    assert_eq!(parse_i64(b"123"), Some(123));
    assert_eq!(parse_i64(b"-9223372036854775808"), Some(i64::MIN));
    assert_eq!(parse_i64(b"9223372036854775808"), None);
    assert_eq!(parse_i64(b""), None);
}

#[test]
fn white_space_is_trimmed_at_both_ends() {
    assert_eq!(trim(b"  12\n"), b"12".to_vec());
    assert_eq!(trim(b"\t\r\n 1 2 \x0b\x0c"), b"1 2".to_vec());
    assert_eq!(trim(b"   "), Vec::<u8>::new());
    assert_eq!(trim(b""), Vec::<u8>::new());
    assert_eq!(trim(b"x"), b"x".to_vec());
}

#[test]
fn every_unicode_white_space_is_trimmed() {
    let blanks: Vec<char> = (0u32..=0x3000)
        .filter_map(char::from_u32)
        .filter(|c| c.is_whitespace())
        .collect();
    // The twenty-five characters that Unicode counts as white space.
    assert_eq!(blanks.len(), 25);
    for c in &blanks {
        let text = format!("{}17{}", c, c);
        assert_eq!(trim(text.as_bytes()), b"17".to_vec(), "U+{:04X}", *c as u32);
        let inner = format!("1{}7", c);
        assert_eq!(trim(inner.as_bytes()), inner.as_bytes().to_vec(), "U+{:04X}", *c as u32);
    }
    let all: String = blanks.iter().collect();
    let text = format!("{}x y{}", all, all);
    assert_eq!(trim(text.as_bytes()), b"x y".to_vec());
    assert_eq!(trim(all.as_bytes()), Vec::<u8>::new());
}

#[test]
fn trimming_agrees_with_the_standard_library() {
    let cases = [
        "", " ", "a", " a", "a ", "\u{a0}a\u{a0}", "\u{85}\u{2003}12\u{3000}\n",
        "\u{e9}", " \u{e9} ", "\u{200b}1\u{200b}", "\u{feff}1", "\u{2028}\u{2029}\u{202f}\u{205f}\u{1680}7",
        "\u{c2}", "\u{2000}", "x\u{200a}", "\u{10ffff} ", "\u{1f600}\u{a0}",
    ];
    for case in cases {
        assert_eq!(trim(case.as_bytes()), case.trim().as_bytes().to_vec(), "{:?}", case);
    }
}

#[test]
fn each_digit_has_its_text() {
    for d in 0..10u64 {
        assert_eq!(digit_text(d), d.to_string());
    }
}

#[test]
fn file_names_follow_the_layout() {
    assert_eq!(working_file_name("/data", "ads"), "/data/ads.cache");
    assert_eq!(
        generation_file_name("/data", "ads", "1700000000000"),
        "/data/ads.1700000000000.cache"
    );
    assert_eq!(latest_marker_name("/data", "ads"), "/data/ads.cache.timestamp.latest");
    assert_eq!(settings_file_name("/data", "ads"), "/data/ads.properties");
    assert_eq!(working_file_name("", ""), "/.cache");
}

#[test]
fn settings_file_has_one_line_per_setting() {
    assert_eq!(
        settings_lines("/data", 5, 35),
        "ccache.destination_folder=/data\nccache.type=5\nccache.offset.bits=35\n"
    );
    assert_eq!(
        settings_lines("", -1, 0),
        "ccache.destination_folder=\nccache.type=-1\nccache.offset.bits=0\n"
    );
}

#[test]
fn every_error_has_its_message() {
    assert_eq!(AxonCacheError::NotFound.message(), "Key was not found");
    assert_eq!(AxonCacheError::UnInitialized.message(), "Cache is not initialized");
    assert_eq!(AxonCacheError::EmptyKey.message(), "Empty key provided");
    assert_eq!(AxonCacheError::ApiError(-1).message(), "C API error: -1");
    assert_eq!(AxonCacheError::ApiError(3).message(), "C API error: 3");
    assert_eq!(AxonCacheError::OffsetBitsError(35).message(), "Offset bits error: 35");
    assert_eq!(AxonCacheError::FromUtf8Error.message(), "UTF-8 conversion error");
    assert_eq!(AxonCacheError::NulError.message(), "Nul byte error");
}
