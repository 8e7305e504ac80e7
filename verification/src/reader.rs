//! The reader: it holds one generation at a time and answers typed point
//! lookups against it.

use vstd::prelude::*;
use vstd::string::StringSliceAdditionalSpecFns;
use vstd::utf8::{decode_utf8, valid_utf8};
use std::time::Duration;
use crate::codec::{
    copy_range, le_value, lemma_le_value_bound, lemma_pow256_values, lemma_scalar_bits_bound,
    read_le, scalar_bits,
};
use crate::error::{AxonCacheError, CODE_INVALID_ARGUMENT, CODE_MALFORMED_IMAGE};
use crate::format::{decode, image_ok, image_view};
use crate::key_type::KeyType;
use crate::list::{decode_items, decode_list, views_of};
use crate::table::{CacheTable, Entry};
use crate::layout::{generation_file, generation_file_name, latest_marker_file, latest_marker_name};
use crate::text::{parse_i64, parse_integer, string_from_utf8, trim, trimmed};

verus! {

/// The duration of a number of whole seconds.
pub uninterp spec fn duration_of_secs(secs: u64) -> Duration;

/// `Duration::from_secs`: the duration of `secs` whole seconds.
#[verifier::external_body]
pub(crate) fn duration_from_secs(secs: u64) -> (d: Duration)
    ensures
        d == duration_of_secs(secs),
{
    Duration::from_secs(secs)
}

/// `Clone` of `Duration`, which is `Copy`: the clone is the duration itself.
pub assume_specification[ <Duration as Clone>::clone ](d: &Duration) -> (copy: Duration)
    ensures
        copy == *d,
;

/// What a reader is made with.
#[derive(Debug, Clone)]
pub struct CacheReaderOptions {
    pub task_name: String,
    pub destination_folder: String,
    pub update_period: Duration,
    pub base_urls: String,
    pub download_at_init: bool,
    pub timestamp: String,
    pub is_preload_memory_enabled: bool,
}

impl Default for CacheReaderOptions {
    fn default() -> (options: Self)
        ensures
            options.task_name@.len() == 0,
            options.destination_folder@.len() == 0,
            options.update_period == duration_of_secs(60),
            options.base_urls@.len() == 0,
            !options.download_at_init,
            options.timestamp@.len() == 0,
            !options.is_preload_memory_enabled,
    {
        CacheReaderOptions {
            task_name: String::new(),
            destination_folder: String::new(),
            update_period: duration_from_secs(60),
            base_urls: String::new(),
            download_at_init: false,
            timestamp: String::new(),
            is_preload_memory_enabled: false,
        }
    }
}

/// The bits of a 32-bit signed integer, in two's complement.
pub open spec fn bits_of_i32(x: i32) -> nat {
    if x >= 0 {
        x as nat
    } else {
        (x + 0x1_0000_0000) as nat
    }
}

/// The bits of a 64-bit signed integer, in two's complement.
pub open spec fn bits_of_i64(x: i64) -> nat {
    if x >= 0 {
        x as nat
    } else {
        (x + 0x1_0000_0000_0000_0000) as nat
    }
}

/// The 32-bit signed integer with the given bits.
pub open spec fn as_i32(bits: nat) -> int {
    if bits < 0x8000_0000 {
        bits as int
    } else {
        bits - 0x1_0000_0000
    }
}

/// The 64-bit signed integer with the given bits.
pub open spec fn as_i64(bits: nat) -> int {
    if bits < 0x8000_0000_0000_0000 {
        bits as int
    } else {
        bits - 0x1_0000_0000_0000_0000
    }
}

/// The 32-bit words of a float vector: one for each whole group of four
/// bytes.
pub open spec fn float_words(value: Seq<u8>) -> Seq<u32> {
    Seq::new(value.len() / 4, |i: int| le_value(value.subrange(4 * i, 4 * i + 4)) as u32)
}

/// Whether every item is UTF-8.
pub open spec fn all_utf8(items: Seq<Seq<u8>>) -> bool {
    forall|i: int| 0 <= i < items.len() ==> valid_utf8(#[trigger] items[i])
}

/// The texts that the items encode, in order.
pub open spec fn decoded_items(items: Seq<Seq<u8>>) -> Seq<Seq<char>> {
    Seq::new(items.len(), |i: int| decode_utf8(items[i]))
}

/// The character sequences of the strings.
pub open spec fn texts_of(strings: Seq<String>) -> Seq<Seq<char>> {
    Seq::new(strings.len(), |i: int| strings[i]@)
}

/// Answers lookups against one generation of a cache.
pub struct CacheReader {
    table: Option<CacheTable>,
    task_name: String,
    destination_folder: String,
    base_urls: String,
    download_at_init: bool,
    most_recent_file_timestamp: i64,
    update_period: Duration,
    timestamp: String,
    is_preload_memory_enabled: bool,
}

impl CacheReader {
    /// The invariant of a reader.
    pub closed spec fn wf(&self) -> bool {
        &&& self.table is Some ==> self.table->Some_0.valid()
        &&& self.most_recent_file_timestamp != 0 ==> self.table is Some
    }

    /// The entries of the loaded generation; none before a generation is
    /// loaded.
    pub closed spec fn view(&self) -> Map<Seq<u8>, Entry> {
        match self.table {
            Some(table) => table@,
            None => Map::<Seq<u8>, Entry>::empty(),
        }
    }

    /// The timestamp of the loaded generation; 0 before a generation is
    /// loaded.
    pub closed spec fn generation(&self) -> i64 {
        self.most_recent_file_timestamp
    }

    /// Whether the reader answers lookups: a generation with a positive
    /// timestamp is loaded.
    pub open spec fn initialized(&self) -> bool {
        self.generation() > 0
    }

    /// The name of the task.
    pub closed spec fn task_name(&self) -> Seq<char> {
        self.task_name@
    }

    /// The folder of the task.
    pub closed spec fn destination_folder(&self) -> Seq<char> {
        self.destination_folder@
    }

    /// The timestamp that the reader was made to open; empty for the latest.
    pub closed spec fn wanted_timestamp(&self) -> Seq<char> {
        self.timestamp@
    }

    /// Where cache files can be fetched from; empty for nowhere.
    pub closed spec fn base_urls(&self) -> Seq<char> {
        self.base_urls@
    }

    /// Whether the reader was made to fetch a cache file before it opens one.
    pub closed spec fn downloads_at_init(&self) -> bool {
        self.download_at_init
    }

    /// The text that names the generation to open: the timestamp that the
    /// reader was made with, else the contents of the marker file without the
    /// white space around them, else nothing.
    pub open spec fn timestamp_text(&self, marker: Option<&str>) -> Option<Seq<u8>> {
        if self.wanted_timestamp().len() != 0 {
            Some(vstd::utf8::encode_utf8(self.wanted_timestamp()))
        } else {
            match marker {
                Some(contents) => Some(trimmed(contents.spec_bytes())),
                None => None,
            }
        }
    }

    /// How long the caller is to wait between two looks for a newer
    /// generation.
    pub closed spec fn refresh_period(&self) -> Duration {
        self.update_period
    }

    /// Whether the caller is to load cache files into memory ahead of the
    /// lookups.
    pub closed spec fn preloads_memory(&self) -> bool {
        self.is_preload_memory_enabled
    }

    /// A reader for the task of the options, with no generation loaded.
    pub fn new(options: CacheReaderOptions) -> (reader: CacheReader)
        ensures
            reader.wf(),
            reader@ == Map::<Seq<u8>, Entry>::empty(),
            reader.generation() == 0,
            reader.task_name() == options.task_name@,
            reader.destination_folder() == options.destination_folder@,
            reader.wanted_timestamp() == options.timestamp@,
            reader.base_urls() == options.base_urls@,
            reader.downloads_at_init() == options.download_at_init,
            reader.refresh_period() == options.update_period,
            reader.preloads_memory() == options.is_preload_memory_enabled,
    {
        CacheReader {
            table: None,
            task_name: options.task_name,
            destination_folder: options.destination_folder,
            base_urls: options.base_urls,
            download_at_init: options.download_at_init,
            most_recent_file_timestamp: 0,
            update_period: options.update_period,
            timestamp: options.timestamp,
            is_preload_memory_enabled: options.is_preload_memory_enabled,
        }
    }

    /// Whether a cache file is to be fetched before one is opened: the reader
    /// was made to download at the start, and it has somewhere to fetch from.
    pub fn maybe_download(&self) -> (fetch: bool)
        ensures
            fetch == (self.downloads_at_init() && self.base_urls().len() > 0),
    {
        self.download_at_init && !self.base_urls.as_str().is_empty()
    }

    /// The name of the file that holds the latest timestamp of the task.
    pub fn latest_marker_name(&self) -> (name: String)
        ensures
            name@ == latest_marker_file(self.destination_folder(), self.task_name()),
    {
        latest_marker_name(self.destination_folder.as_str(), self.task_name.as_str())
    }

    /// The name of the file of the generation `timestamp` of the task.
    pub fn generation_file_name(&self, timestamp: &str) -> (name: String)
        ensures
            name@ == generation_file(self.destination_folder(), self.task_name(), timestamp@),
    {
        generation_file_name(self.destination_folder.as_str(), self.task_name.as_str(), timestamp)
    }

    /// The timestamp in the contents of a marker file: a decimal integer,
    /// with white space around it left aside.  Anything else is refused with
    /// `ApiError(-1)`.
    pub fn get_latest_timestamp(marker: &str) -> (found: Result<i64, AxonCacheError>)
        ensures
            match found {
                Ok(stamp) => parse_integer(trimmed(marker.spec_bytes())) == Some(stamp as int),
                Err(e) => e == AxonCacheError::ApiError(CODE_INVALID_ARGUMENT) && parse_integer(
                    trimmed(marker.spec_bytes()),
                ) is None,
            },
    {
        let inner = trim(marker.as_bytes());
        match parse_i64(inner.as_slice()) {
            Some(stamp) => Ok(stamp),
            None => Err(AxonCacheError::ApiError(CODE_INVALID_ARGUMENT)),
        }
    }

    /// The timestamp of the generation to open: the one that the reader was
    /// made with, or, where it was made with none, the one in the contents of
    /// the marker file.  With neither a timestamp nor a marker file there is
    /// no generation yet: `UnInitialized`.  A timestamp that is no integer is
    /// refused with `ApiError(-1)`.
    pub fn resolve_timestamp(&self, marker: Option<&str>) -> (found: Result<i64, AxonCacheError>)
        ensures
            match found {
                Ok(stamp) => self.timestamp_text(marker) matches Some(text) && parse_integer(text)
                    == Some(stamp as int),
                Err(e) => match self.timestamp_text(marker) {
                    Some(text) => e == AxonCacheError::ApiError(CODE_INVALID_ARGUMENT)
                        && parse_integer(text) is None,
                    None => e == AxonCacheError::UnInitialized,
                },
            },
    {
        if self.timestamp.as_str().is_empty() {
            match marker {
                Some(contents) => Self::get_latest_timestamp(contents),
                None => Err(AxonCacheError::UnInitialized),
            }
        } else {
            match parse_i64(self.timestamp.as_str().as_bytes()) {
                Some(stamp) => Ok(stamp),
                None => Err(AxonCacheError::ApiError(CODE_INVALID_ARGUMENT)),
            }
        }
    }

    /// How long the caller is to wait between two looks for a newer
    /// generation.
    pub fn update_period(&self) -> (period: Duration)
        ensures
            period == self.refresh_period(),
    {
        self.update_period
    }

    /// Whether the caller is to load cache files into memory ahead of the
    /// lookups.
    pub fn is_preload_memory_enabled(&self) -> (enabled: bool)
        ensures
            enabled == self.preloads_memory(),
    {
        self.is_preload_memory_enabled
    }

    /// Whether the reader answers lookups.
    pub fn is_initialized(&self) -> (b: bool)
        ensures
            b == self.initialized(),
    {
        self.most_recent_file_timestamp > 0
    }

    /// Swaps the loaded generation for the one in `image`, whose timestamp is
    /// `timestamp`.  A timestamp that is no integer is refused with
    /// `ApiError(-1)`, and bytes that are no cache image with
    /// `ApiError(3)`; the reader then keeps the generation it had, whole.
    pub fn update(&mut self, timestamp: &str, image: &[u8]) -> (done: Result<(), AxonCacheError>)
        requires
            old(self).wf(),
        ensures
            final(self).wf(),
            final(self).task_name() == old(self).task_name(),
            final(self).destination_folder() == old(self).destination_folder(),
            final(self).wanted_timestamp() == old(self).wanted_timestamp(),
            final(self).base_urls() == old(self).base_urls(),
            final(self).downloads_at_init() == old(self).downloads_at_init(),
            final(self).refresh_period() == old(self).refresh_period(),
            final(self).preloads_memory() == old(self).preloads_memory(),
            match done {
                Ok(()) => {
                    &&& parse_integer(timestamp.spec_bytes()) is Some
                    &&& image_ok(image@)
                    &&& final(self).generation() == parse_integer(timestamp.spec_bytes())->Some_0
                    &&& final(self)@ == image_view(image@)
                },
                Err(e) => {
                    &&& e == if parse_integer(timestamp.spec_bytes()) is None {
                        AxonCacheError::ApiError(CODE_INVALID_ARGUMENT)
                    } else {
                        AxonCacheError::ApiError(CODE_MALFORMED_IMAGE)
                    }
                    &&& parse_integer(timestamp.spec_bytes()) is None || !image_ok(image@)
                    &&& final(self).generation() == old(self).generation()
                    &&& final(self)@ == old(self)@
                },
            },
    {
        let stamp: i64 = match parse_i64(timestamp.as_bytes()) {
            Some(stamp) => stamp,
            None => {
                return Err(AxonCacheError::ApiError(CODE_INVALID_ARGUMENT));
            },
        };
        let table = match decode(image) {
            Some(table) => table,
            None => {
                return Err(AxonCacheError::ApiError(CODE_MALFORMED_IMAGE));
            },
        };
        self.table = Some(table);
        self.most_recent_file_timestamp = stamp;
        Ok(())
    }

    /// Why a lookup of `key` fails, if it does.
    pub open spec fn lookup_error(&self, key: Seq<u8>) -> Option<AxonCacheError> {
        if !self.initialized() {
            Some(AxonCacheError::UnInitialized)
        } else if !self@.contains_key(key) {
            Some(AxonCacheError::NotFound)
        } else {
            None
        }
    }

    /// The loaded table and the slot in it that holds `key`.
    fn slot_of(&self, key: &str) -> (found: Result<(&CacheTable, usize), AxonCacheError>)
        requires
            self.wf(),
        ensures
            match found {
                Ok((table, i)) => {
                    &&& self.lookup_error(key.spec_bytes()) is None
                    &&& table.valid()
                    &&& i < table.slots@.len()
                    &&& table.slots@[i as int].occupied()
                    &&& self@[key.spec_bytes()] == table.slots@[i as int].entry(table.heap@)
                },
                Err(e) => self.lookup_error(key.spec_bytes()) == Some(e),
            },
    {
        if self.most_recent_file_timestamp <= 0 {
            return Err(AxonCacheError::UnInitialized);
        }
        match &self.table {
            Some(table) => match table.find(key.as_bytes()) {
                Some(i) => Ok((table, i)),
                None => Err(AxonCacheError::NotFound),
            },
            None => Err(AxonCacheError::UnInitialized),
        }
    }

    /// What `contains_key` answers for `key`.
    pub open spec fn holds(&self, key: Seq<u8>) -> Result<bool, AxonCacheError> {
        if !self.initialized() {
            Err(AxonCacheError::UnInitialized)
        } else {
            Ok(self@.contains_key(key))
        }
    }

    /// What `get_key` answers for `key`: the text that the value encodes;
    /// `FromUtf8Error` for a value that is not UTF-8.
    pub open spec fn text_of(&self, key: Seq<u8>) -> Result<Seq<char>, AxonCacheError> {
        match self.lookup_error(key) {
            Some(e) => Err(e),
            None => if valid_utf8(self@[key].value) {
                Ok(decode_utf8(self@[key].value))
            } else {
                Err(AxonCacheError::FromUtf8Error)
            },
        }
    }

    /// What `get_vector` answers for `key`: the texts that the items of the
    /// value encode, each at its place; `FromUtf8Error` where an item is not
    /// UTF-8.
    pub open spec fn list_of(&self, key: Seq<u8>) -> Result<Seq<Seq<char>>, AxonCacheError> {
        match self.lookup_error(key) {
            Some(e) => Err(e),
            None => if all_utf8(decode_list(self@[key].value)) {
                Ok(decoded_items(decode_list(self@[key].value)))
            } else {
                Err(AxonCacheError::FromUtf8Error)
            },
        }
    }

    /// The type and the bytes that `key` maps to.
    pub fn get_value(&self, key: &str) -> (found: Result<(KeyType, Vec<u8>), AxonCacheError>)
        requires
            self.wf(),
        ensures
            match found {
                Ok(pair) => {
                    &&& self.lookup_error(key.spec_bytes()) is None
                    &&& self@[key.spec_bytes()] == (Entry { key_type: pair.0, value: pair.1@ })
                },
                Err(e) => self.lookup_error(key.spec_bytes()) == Some(e),
            },
    {
        match self.slot_of(key) {
            Ok((table, i)) => Ok((table.type_at(i), table.value_at(i))),
            Err(e) => Err(e),
        }
    }

    /// Whether the loaded generation holds `key`.
    pub fn contains_key(&self, key: &str) -> (held: Result<bool, AxonCacheError>)
        requires
            self.wf(),
        ensures
            held == self.holds(key.spec_bytes()),
    {
        match self.slot_of(key) {
            Ok(_) => Ok(true),
            Err(AxonCacheError::NotFound) => Ok(false),
            Err(e) => Err(e),
        }
    }

    /// The type of the value of `key`.
    pub fn key_type(&self, key: &str) -> (found: Result<KeyType, AxonCacheError>)
        requires
            self.wf(),
        ensures
            match found {
                Ok(t) => self.lookup_error(key.spec_bytes()) is None && t == self@[key.spec_bytes()].key_type,
                Err(e) => self.lookup_error(key.spec_bytes()) == Some(e),
            },
    {
        match self.slot_of(key) {
            Ok((table, i)) => Ok(table.type_at(i)),
            Err(e) => Err(e),
        }
    }

    /// The name of the type of the value of `key`.
    pub fn get_key_type(&self, key: &str) -> (found: Result<String, AxonCacheError>)
        requires
            self.wf(),
        ensures
            match found {
                Ok(name) => self.lookup_error(key.spec_bytes()) is None && name@
                    == self@[key.spec_bytes()].key_type.spec_label(),
                Err(e) => self.lookup_error(key.spec_bytes()) == Some(e),
            },
    {
        match self.slot_of(key) {
            Ok((table, i)) => Ok(table.type_at(i).label().to_owned()),
            Err(e) => Err(e),
        }
    }

    /// The value of `key` as a string.  A value that is not UTF-8 is refused
    /// with `FromUtf8Error`.
    pub fn get_key(&self, key: &str) -> (found: Result<String, AxonCacheError>)
        requires
            self.wf(),
        ensures
            match found {
                Ok(text) => self.text_of(key.spec_bytes()) == Ok::<Seq<char>, AxonCacheError>(text@),
                Err(e) => self.text_of(key.spec_bytes()) == Err::<Seq<char>, AxonCacheError>(e),
            },
    {
        match self.slot_of(key) {
            Ok((table, i)) => match string_from_utf8(table.value_at(i)) {
                Some(text) => Ok(text),
                None => Err(AxonCacheError::FromUtf8Error),
            },
            Err(e) => Err(e),
        }
    }

    /// The value of `key` as a boolean: whether its first byte is not zero.
    pub fn get_bool(&self, key: &str) -> (found: Result<bool, AxonCacheError>)
        requires
            self.wf(),
        ensures
            match found {
                Ok(b) => self.lookup_error(key.spec_bytes()) is None && b == (scalar_bits(
                    self@[key.spec_bytes()].value,
                    1,
                ) != 0),
                Err(e) => self.lookup_error(key.spec_bytes()) == Some(e),
            },
    {
        match self.slot_of(key) {
            Ok((table, i)) => Ok(table.bits_at(i, 1) != 0),
            Err(e) => Err(e),
        }
    }

    /// The value of `key` as a 32-bit integer: its first four bytes,
    /// little-endian, in two's complement.
    pub fn get_int(&self, key: &str) -> (found: Result<i32, AxonCacheError>)
        requires
            self.wf(),
        ensures
            match found {
                Ok(n) => self.lookup_error(key.spec_bytes()) is None && n == as_i32(
                    scalar_bits(self@[key.spec_bytes()].value, 4),
                ),
                Err(e) => self.lookup_error(key.spec_bytes()) == Some(e),
            },
    {
        match self.slot_of(key) {
            Ok((table, i)) => {
                let bits: u64 = table.bits_at(i, 4);
                proof {
                    lemma_scalar_bits_bound(self@[key.spec_bytes()].value, 4);
                    lemma_pow256_values();
                }
                if bits < 0x8000_0000 {
                    Ok(bits as i32)
                } else {
                    Ok((bits as i64 - 0x1_0000_0000) as i32)
                }
            },
            Err(e) => Err(e),
        }
    }

    /// The value of `key` as a 64-bit integer: its first eight bytes,
    /// little-endian, in two's complement.
    pub fn get_long(&self, key: &str) -> (found: Result<i64, AxonCacheError>)
        requires
            self.wf(),
        ensures
            match found {
                Ok(n) => self.lookup_error(key.spec_bytes()) is None && n == as_i64(
                    scalar_bits(self@[key.spec_bytes()].value, 8),
                ),
                Err(e) => self.lookup_error(key.spec_bytes()) == Some(e),
            },
    {
        match self.slot_of(key) {
            Ok((table, i)) => {
                let bits: u64 = table.bits_at(i, 8);
                if bits < 0x8000_0000_0000_0000 {
                    Ok(bits as i64)
                } else {
                    Ok((bits - 0x8000_0000_0000_0000) as i64 + i64::MIN)
                }
            },
            Err(e) => Err(e),
        }
    }

    /// The value of `key` as the bits of a double: its first eight bytes,
    /// little-endian.
    pub fn get_double(&self, key: &str) -> (found: Result<u64, AxonCacheError>)
        requires
            self.wf(),
        ensures
            match found {
                Ok(bits) => self.lookup_error(key.spec_bytes()) is None && bits == scalar_bits(
                    self@[key.spec_bytes()].value,
                    8,
                ),
                Err(e) => self.lookup_error(key.spec_bytes()) == Some(e),
            },
    {
        match self.slot_of(key) {
            Ok((table, i)) => Ok(table.bits_at(i, 8)),
            Err(e) => Err(e),
        }
    }

    /// The value of `key` as a list of strings, in the order in which the
    /// items were appended.  Where an item is not UTF-8 the value is no list of
    /// strings: `FromUtf8Error`.
    pub fn get_vector(&self, key: &str) -> (found: Result<Vec<String>, AxonCacheError>)
        requires
            self.wf(),
        ensures
            match found {
                Ok(items) => self.list_of(key.spec_bytes()) == Ok::<
                    Seq<Seq<char>>,
                    AxonCacheError,
                >(texts_of(items@)),
                Err(e) => self.list_of(key.spec_bytes()) == Err::<Seq<Seq<char>>, AxonCacheError>(e),
            },
    {
        match self.slot_of(key) {
            Ok((table, i)) => {
                let payload = table.value_at(i);
                let raw = decode_items(payload.as_slice());
                let ghost all = views_of(raw@);
                let mut items: Vec<String> = Vec::new();
                let mut i: usize = 0;
                while i < raw.len()
                    invariant
                        i <= raw@.len(),
                        all == views_of(raw@),
                        all == decode_list(self@[key.spec_bytes()].value),
                        self.lookup_error(key.spec_bytes()) is None,
                        items@.len() == i,
                        forall|j: int| 0 <= j < i ==> valid_utf8(#[trigger] all[j]),
                        forall|j: int| 0 <= j < i ==> (#[trigger] items@[j])@ == decode_utf8(all[j]),
                    decreases raw@.len() - i,
                {
                    let item = copy_range(raw[i].as_slice(), 0, raw[i].len());
                    proof {
                        assert(item@ =~= all[i as int]);
                    }
                    match string_from_utf8(item) {
                        Some(text) => {
                            items.push(text);
                        },
                        None => {
                            assert(!valid_utf8(all[i as int]));
                            return Err(AxonCacheError::FromUtf8Error);
                        },
                    }
                    i = i + 1;
                }
                proof {
                    assert(texts_of(items@) =~= decoded_items(all));
                }
                Ok(items)
            },
            Err(e) => Err(e),
        }
    }

    /// The value of `key` as the bits of a list of floats: one 32-bit word for
    /// each whole group of four bytes, little-endian.
    pub fn get_vector_float(&self, key: &str) -> (found: Result<Vec<u32>, AxonCacheError>)
        requires
            self.wf(),
        ensures
            match found {
                Ok(words) => self.lookup_error(key.spec_bytes()) is None && words@ == float_words(
                    self@[key.spec_bytes()].value,
                ),
                Err(e) => self.lookup_error(key.spec_bytes()) == Some(e),
            },
    {
        match self.slot_of(key) {
            Ok((table, i)) => {
                let value = table.value_at(i);
                let total: usize = value.len();
                let count: usize = total / 4;
                let mut words: Vec<u32> = Vec::new();
                let mut i: usize = 0;
                while i < count
                    invariant
                        i <= count,
                        total == value@.len(),
                        count == total / 4,
                        words@.len() == i,
                        forall|j: int| 0 <= j < i ==> #[trigger] words@[j] == float_words(value@)[j],
                    decreases count - i,
                {
                    proof {
                        lemma_le_value_bound(value@.subrange(4 * i, 4 * i + 4));
                        lemma_pow256_values();
                    }
                    let word: u64 = read_le(value.as_slice(), 4 * i, 4);
                    words.push(word as u32);
                    i = i + 1;
                }
                proof {
                    assert(words@ =~= float_words(value@));
                }
                Ok(words)
            },
            Err(e) => Err(e),
        }
    }
}

} // verus!
