//! The writer: it collects one batch of entries in a slot table and turns the
//! table into the cache image of a new generation.

use vstd::prelude::*;
use vstd::string::StringSliceAdditionalSpecFns;
use vstd::utf8::encode_utf8;
use crate::census::{
    at_depth, is_depth_histogram, is_largest_depth, keys_at_depth, lemma_count_bounds,
    lemma_count_none, lemma_counted_at_depth, lemma_exhausted_iff_full, lemma_occupied_bounds,
    lemma_slot_replaced, occupied_count, slot_depth,
};
use crate::codec::{copy_range, power_of_two, two_to};
use crate::error::{AxonCacheError, CODE_INVALID_ARGUMENT, CODE_TABLE_FULL, CODE_UNSEALED_VALUES};
use crate::format::{
    encode, encode_image, image_bits, image_ok, image_view, lemma_image_round_trip,
};
use crate::hash::{fnv1a, hash_function_name, hash_key};
use crate::key_type::KeyType;
use crate::layout::{
    generation_file, generation_file_name, latest_marker_file, latest_marker_name, settings_file,
    settings_file_name, working_file, working_file_name,
};
use crate::list::{encode_items, encode_list, has_nul, nul_free, views_of};
use crate::placement::{lemma_empty_table, lemma_probe_end};
use crate::table::{
    blank_slot, home_slot, lookup, probe_distance, record_bytes, record_slot, table_view,
    CacheTable, Entry, Probe, ProbeEnd, Slot,
};
use crate::text::{decimal, decimal_string, lemma_decimal_parses, parse_integer, push_decimal};

verus! {

/// The smallest number of offset bits that a writer accepts.
pub const MIN_OFFSET_BITS: i32 = 1;

/// The largest number of offset bits that a writer accepts: the widest offset
/// that leaves the slot word room for the type tag.
pub const MAX_OFFSET_BITS: i32 = 61;

/// What a writer is made with.
#[derive(Debug, Clone)]
pub struct CacheWriterOptions {
    pub task_name: String,
    pub destination_folder: String,
    pub settings_location: String,
    pub number_of_key_slots: u64,
    pub generate_timestamp_file: bool,
    pub rename_cache_file: bool,
    pub cache_type: i32,
    pub offset_bits: i32,
}

impl Default for CacheWriterOptions {
    fn default() -> (options: Self)
        ensures
            options.task_name@.len() == 0,
            options.destination_folder@.len() == 0,
            options.settings_location@.len() == 0,
            options.number_of_key_slots == 1000000,
            options.generate_timestamp_file,
            options.rename_cache_file,
            options.cache_type == 5,
            options.offset_bits == 35,
    {
        CacheWriterOptions {
            task_name: String::new(),
            destination_folder: String::new(),
            settings_location: String::new(),
            number_of_key_slots: 1000000,
            generate_timestamp_file: true,
            rename_cache_file: true,
            cache_type: 5,
            offset_bits: 35,
        }
    }
}

/// The histogram `counts` with one more key at depth `depth`.
pub open spec fn bump(counts: Seq<u64>, depth: int) -> Seq<u64> {
    Seq::new(
        if depth < counts.len() {
            counts.len()
        } else {
            (depth + 1) as nat
        },
        |d: int|
            {
                let before = if d < counts.len() {
                    counts[d]
                } else {
                    0u64
                };
                if d == depth {
                    (before + 1) as u64
                } else {
                    before
                }
            },
    )
}

/// Counts one more key at depth `depth`.
fn bump_counts(counts: &mut Vec<u64>, depth: usize)
    requires
        forall|d: int| 0 <= d < old(counts)@.len() ==> #[trigger] old(counts)@[d] < u64::MAX,
    ensures
        final(counts)@ == bump(old(counts)@, depth as int),
{
    while counts.len() <= depth
        invariant
            counts@.len() >= old(counts)@.len(),
            forall|d: int|
                0 <= d < counts@.len() ==> #[trigger] counts@[d] == if d < old(counts)@.len() {
                    old(counts)@[d]
                } else {
                    0u64
                },
            counts@.len() <= depth + 1 || counts@.len() == old(counts)@.len(),
        decreases depth + 1 - counts@.len(),
    {
        counts.push(0);
    }
    let count: u64 = counts[depth];
    counts.set(depth, count + 1);
    proof {
        assert(counts@ =~= bump(old(counts)@, depth as int));
    }
}

/// Builds one cache generation.
pub struct CacheWriter {
    table: CacheTable,
    task_name: String,
    destination_folder: String,
    generate_timestamp_file: bool,
    rename_cache_file: bool,
    offset_bits: i32,
    offset_limit: u64,
    staged: Vec<Vec<u8>>,
    sealed: Vec<Vec<u8>>,
    unique_keys: u64,
    max_collisions: u64,
    collisions: Vec<u64>,
    last_error: Option<AxonCacheError>,
    finished: bool,
    image: Vec<u8>,
    timestamp: String,
    finished_at: u64,
}

/// One step of publishing a generation.
pub enum PublishStep {
    /// Write a file with these contents, replacing the file if it exists.
    WriteFile { path: String, contents: Vec<u8> },
    /// Rename a file.
    Rename { from: String, to: String },
}

/// One step of publishing a generation, as values.
pub enum PublishAction {
    WriteFile { path: Seq<char>, contents: Seq<u8> },
    Rename { from: Seq<char>, to: Seq<char> },
}

impl View for PublishStep {
    type V = PublishAction;

    open spec fn view(&self) -> PublishAction {
        match self {
            PublishStep::WriteFile { path, contents } => PublishAction::WriteFile {
                path: path@,
                contents: contents@,
            },
            PublishStep::Rename { from, to } => PublishAction::Rename { from: from@, to: to@ },
        }
    }
}

/// The actions that the steps stand for.
pub open spec fn actions_of(steps: Seq<PublishStep>) -> Seq<PublishAction> {
    Seq::new(steps.len(), |i: int| steps[i]@)
}

/// The text of a collision histogram: for each depth, in order, the depth, a
/// colon and the number of keys, separated by commas.
pub open spec fn histogram_text(counts: Seq<u64>) -> Seq<char>
    decreases counts.len(),
{
    if counts.len() == 0 {
        Seq::<char>::empty()
    } else {
        let entry = decimal((counts.len() - 1) as nat) + ":"@ + decimal(counts.last() as nat);
        if counts.len() == 1 {
            entry
        } else {
            histogram_text(counts.drop_last()) + ","@ + entry
        }
    }
}

impl CacheWriter {
    /// The invariant of a writer.
    pub closed spec fn wf(&self) -> bool {
        &&& self.table.valid()
        &&& self.table.placed()
        &&& self.table@.dom().finite()
        &&& self.unique_keys == self.table@.dom().len()
        &&& self.unique_keys == occupied_count(self.table.slots@)
        &&& MIN_OFFSET_BITS <= self.offset_bits <= MAX_OFFSET_BITS
        &&& self.offset_limit == two_to(self.offset_bits as nat)
        &&& forall|i: int|
            0 <= i < self.table.slots@.len() && (#[trigger] self.table.slots@[i]).occupied()
                ==> self.table.slots@[i].offset < self.offset_limit
        &&& forall|i: int| 0 <= i < self.staged@.len() ==> nul_free(#[trigger] self.staged@[i]@)
        &&& forall|i: int| 0 <= i < self.sealed@.len() ==> nul_free(#[trigger] self.sealed@[i]@)
        &&& forall|d: int|
            0 <= d < self.collisions@.len() ==> #[trigger] self.collisions@[d] == keys_at_depth(
                self.table.slots@,
                d,
            )
        &&& forall|d: int|
            d >= self.collisions@.len() ==> #[trigger] keys_at_depth(self.table.slots@, d) == 0
        &&& if self.collisions@.len() == 0 {
            self.max_collisions == 0
        } else {
            self.max_collisions == self.collisions@.len() - 1 && self.collisions@.last() >= 1
        }
        &&& self.finished ==> {
            &&& 0 < self.finished_at <= i64::MAX
            &&& self.timestamp@ == decimal(self.finished_at as nat)
            &&& self.image@ == encode_image(self.table.slots@, self.table.heap@, self.offset_bits as nat)
            &&& image_ok(self.image@)
            &&& image_view(self.image@) == self.table@
            &&& image_bits(self.image@) == self.offset_bits
        }
    }

    /// The slot table.
    pub closed spec fn slots(&self) -> Seq<Slot> {
        self.table.slots@
    }

    /// The value heap.
    pub closed spec fn heap(&self) -> Seq<u8> {
        self.table.heap@
    }

    /// The entries collected so far: the map that the slot table stands for.
    pub open spec fn view(&self) -> Map<Seq<u8>, Entry> {
        table_view(self.slots(), self.heap())
    }

    /// Whether the writer still accepts entries.
    pub closed spec fn initialized(&self) -> bool {
        !self.finished
    }

    /// The number of key slots.
    pub open spec fn capacity(&self) -> nat {
        self.slots().len()
    }

    /// The configured width of an offset, in bits.
    pub closed spec fn offset_bits(&self) -> i32 {
        self.offset_bits
    }

    /// The offset at which the next entry would start: the end of the heap.
    pub open spec fn next_offset(&self) -> nat {
        self.heap().len()
    }

    /// The slot where the probe sequence of `key` ends; -1 where it ends in
    /// none.
    pub open spec fn slot_for(&self, key: Seq<u8>) -> int {
        match lookup(self.slots(), self.heap(), key) {
            ProbeEnd::Found(i) => i,
            ProbeEnd::Vacant(i) => i,
            ProbeEnd::Exhausted => -1,
        }
    }

    /// The vector values appended since the last seal.
    pub closed spec fn staged(&self) -> Seq<Seq<u8>> {
        views_of(self.staged@)
    }

    /// The sealed vector values that wait for their key.
    pub closed spec fn sealed(&self) -> Seq<Seq<u8>> {
        views_of(self.sealed@)
    }

    /// The number of keys that the probe sequence of `key` passes before it
    /// ends.
    pub open spec fn collision_depth(&self, key: Seq<u8>) -> int {
        let cap = self.slots().len() as int;
        match lookup(self.slots(), self.heap(), key) {
            ProbeEnd::Found(i) => probe_distance(home_slot(fnv1a(key), cap), i, cap),
            ProbeEnd::Vacant(i) => probe_distance(home_slot(fnv1a(key), cap), i, cap),
            ProbeEnd::Exhausted => cap,
        }
    }

    /// The largest collision depth of an insert so far.
    pub closed spec fn max_collisions(&self) -> u64 {
        self.max_collisions
    }

    /// For each collision depth, the number of keys that were stored at it.
    pub closed spec fn collision_counts(&self) -> Seq<u64> {
        self.collisions@
    }

    /// The image of the finished generation.
    pub closed spec fn image(&self) -> Seq<u8> {
        self.image@
    }

    /// The timestamp of the finished generation, as text.
    pub closed spec fn timestamp(&self) -> Seq<char> {
        self.timestamp@
    }

    /// The clock reading, in milliseconds, that names the finished
    /// generation.
    pub closed spec fn generation(&self) -> u64 {
        self.finished_at
    }

    /// The name of the task.
    pub closed spec fn task_name(&self) -> Seq<char> {
        self.task_name@
    }

    /// The folder of the task.
    pub closed spec fn destination_folder(&self) -> Seq<char> {
        self.destination_folder@
    }

    /// Whether publishing writes the file with the latest timestamp.
    pub closed spec fn generates_timestamp_file(&self) -> bool {
        self.generate_timestamp_file
    }

    /// Whether publishing renames the cache file to its timestamped name.
    pub closed spec fn renames_cache_file(&self) -> bool {
        self.rename_cache_file
    }

    /// The steps that publish the finished generation, in order: the image is
    /// written to the working file; then, where asked for, the timestamp to
    /// the marker file; last, where asked for, the working file is renamed to
    /// its timestamped name.  Before the writer is finished there are none.
    pub open spec fn publish_plan(&self) -> Seq<PublishAction> {
        if self.initialized() {
            Seq::<PublishAction>::empty()
        } else {
            let folder = self.destination_folder();
            let task = self.task_name();
            seq![PublishAction::WriteFile { path: working_file(folder, task), contents: self.image() }]
                + (if self.generates_timestamp_file() {
                seq![
                    PublishAction::WriteFile {
                        path: latest_marker_file(folder, task),
                        contents: encode_utf8(self.timestamp()),
                    },
                ]
            } else {
                Seq::<PublishAction>::empty()
            }) + (if self.renames_cache_file() {
                seq![
                    PublishAction::Rename {
                        from: working_file(folder, task),
                        to: generation_file(folder, task, self.timestamp()),
                    },
                ]
            } else {
                Seq::<PublishAction>::empty()
            })
        }
    }

    /// The two writers are set up alike: capacity, offset bits, task, folder
    /// and publishing choices.
    pub open spec fn same_settings(&self, other: &CacheWriter) -> bool {
        &&& self.capacity() == other.capacity()
        &&& self.offset_bits() == other.offset_bits()
        &&& self.task_name() == other.task_name()
        &&& self.destination_folder() == other.destination_folder()
        &&& self.generates_timestamp_file() == other.generates_timestamp_file()
        &&& self.renames_cache_file() == other.renames_cache_file()
    }

    /// The two writers hold and have published the same: slot table, heap,
    /// collision counts, image and timestamp, and both accept entries or
    /// neither does.
    pub open spec fn same_contents(&self, other: &CacheWriter) -> bool {
        &&& self.slots() == other.slots()
        &&& self.heap() == other.heap()
        &&& self.max_collisions() == other.max_collisions()
        &&& self.collision_counts() == other.collision_counts()
        &&& self.initialized() == other.initialized()
        &&& self.image() == other.image()
        &&& self.timestamp() == other.timestamp()
        &&& self.generation() == other.generation()
    }

    /// Why the writer cannot be finished at the clock reading `now_millis`,
    /// if it cannot: it is finished already; vector values are staged and
    /// were never sealed; or the reading is no timestamp of a generation,
    /// which is a positive number of milliseconds within the 64-bit signed
    /// range.
    pub open spec fn finish_error(&self, now_millis: u64) -> Option<AxonCacheError> {
        if !self.initialized() {
            Some(AxonCacheError::UnInitialized)
        } else if self.staged().len() > 0 {
            Some(AxonCacheError::ApiError(CODE_UNSEALED_VALUES))
        } else if now_millis == 0 || now_millis > i64::MAX {
            Some(AxonCacheError::ApiError(CODE_INVALID_ARGUMENT))
        } else {
            None
        }
    }

    /// The last failure, if an operation has failed.
    pub closed spec fn last_error(&self) -> Option<AxonCacheError> {
        self.last_error
    }

    /// Whether an insert of `value` with this type takes the sealed list for
    /// its payload.
    pub open spec fn claims_list(&self, value: Seq<u8>, key_type: KeyType) -> bool {
        &&& value.len() == 0
        &&& key_type == KeyType::Vector || key_type == KeyType::FloatVector
        &&& self.sealed().len() > 0
    }

    /// The bytes that an insert of `value` with this type stores.
    pub open spec fn payload_for(&self, value: Seq<u8>, key_type: KeyType) -> Seq<u8> {
        if self.claims_list(value, key_type) {
            encode_list(self.sealed())
        } else {
            value
        }
    }

    /// Why an insert of `key` fails, if it does.
    pub open spec fn insert_error(&self, key: Seq<u8>) -> Option<AxonCacheError> {
        if !self.initialized() {
            Some(AxonCacheError::UnInitialized)
        } else if key.len() == 0 {
            Some(AxonCacheError::EmptyKey)
        } else if self.next_offset() >= two_to(self.offset_bits() as nat) {
            Some(AxonCacheError::OffsetBitsError(self.offset_bits()))
        } else if !self@.contains_key(key) && self@.dom().len() >= self.capacity() {
            Some(AxonCacheError::ApiError(CODE_TABLE_FULL))
        } else {
            None
        }
    }

    /// The image of a finished writer is a cache image that stands for exactly
    /// the entries of the writer.
    pub proof fn lemma_finished_image(&self)
        requires
            self.wf(),
            !self.initialized(),
        ensures
            self.image() == encode_image(self.slots(), self.heap(), self.offset_bits() as nat),
            image_ok(self.image()),
            image_view(self.image()) == self@,
            image_bits(self.image()) == self.offset_bits(),
            0 < self.generation() <= i64::MAX,
            self.timestamp() == decimal(self.generation() as nat),
            parse_integer(encode_utf8(self.timestamp())) == Some(self.generation() as int),
    {
        lemma_decimal_parses(self.finished_at as nat);
    }

    /// No staged or sealed vector value holds a NUL byte.
    pub proof fn lemma_vector_values_nul_free(&self)
        requires
            self.wf(),
        ensures
            forall|i: int| 0 <= i < self.staged().len() ==> nul_free(#[trigger] self.staged()[i]),
            forall|i: int| 0 <= i < self.sealed().len() ==> nul_free(#[trigger] self.sealed()[i]),
    {
    }

    /// Whether a writer can be made with these options.
    pub open spec fn options_valid(options: CacheWriterOptions) -> bool {
        &&& 1 <= options.number_of_key_slots <= usize::MAX
        &&& MIN_OFFSET_BITS <= options.offset_bits <= MAX_OFFSET_BITS
    }

    /// A writer with an empty table of `number_of_key_slots` slots.  Options
    /// out of range are refused with `ApiError`.
    pub fn new(options: CacheWriterOptions) -> (made: Result<CacheWriter, AxonCacheError>)
        ensures
            made is Ok <==> Self::options_valid(options),
            made is Err ==> made == Err::<CacheWriter, AxonCacheError>(
                AxonCacheError::ApiError(CODE_INVALID_ARGUMENT),
            ),
            made is Ok ==> {
                let w = made->Ok_0;
                &&& w.wf()
                &&& w@ == Map::<Seq<u8>, Entry>::empty()
                &&& w.initialized()
                &&& w.slots() == Seq::new(options.number_of_key_slots as nat, |i: int| blank_slot())
                &&& w.heap() == Seq::<u8>::empty()
                &&& w.offset_bits() == options.offset_bits
                &&& w.image() == Seq::<u8>::empty()
                &&& w.timestamp() == Seq::<char>::empty()
                &&& w.generation() == 0
                &&& w.staged().len() == 0
                &&& w.sealed().len() == 0
                &&& w.max_collisions() == 0
                &&& w.collision_counts().len() == 0
                &&& w.last_error() is None
                &&& w.task_name() == options.task_name@
                &&& w.destination_folder() == options.destination_folder@
                &&& w.generates_timestamp_file() == options.generate_timestamp_file
                &&& w.renames_cache_file() == options.rename_cache_file
            },
    {
        if options.offset_bits < MIN_OFFSET_BITS || options.offset_bits > MAX_OFFSET_BITS {
            return Err(AxonCacheError::ApiError(CODE_INVALID_ARGUMENT));
        }
        let table = match CacheTable::new(options.number_of_key_slots) {
            Some(table) => table,
            None => {
                return Err(AxonCacheError::ApiError(CODE_INVALID_ARGUMENT));
            },
        };
        let offset_limit = power_of_two(options.offset_bits as u8);
        proof {
            lemma_empty_table(table.slots@, table.heap@);
            lemma_count_none(table.slots@);
            assert forall|i: int| 0 <= i < table.slots@.len() implies !(#[trigger] table.slots@[i]).occupied() by {
                assert(table.slots@[i] == blank_slot());
            }
        }
        let writer = CacheWriter {
            table,
            task_name: options.task_name,
            destination_folder: options.destination_folder,
            generate_timestamp_file: options.generate_timestamp_file,
            rename_cache_file: options.rename_cache_file,
            offset_bits: options.offset_bits,
            offset_limit,
            staged: Vec::new(),
            sealed: Vec::new(),
            unique_keys: 0,
            max_collisions: 0,
            collisions: Vec::new(),
            last_error: None,
            finished: false,
            image: Vec::new(),
            timestamp: String::new(),
            finished_at: 0,
        };
        proof {
            assert(writer.staged() =~= Seq::<Seq<u8>>::empty());
            assert(writer.sealed() =~= Seq::<Seq<u8>>::empty());
            assert(writer.slots() =~= Seq::new(
                options.number_of_key_slots as nat,
                |i: int| blank_slot(),
            ));
            assert(writer.heap() =~= Seq::<u8>::empty());
        }
        Ok(writer)
    }

    /// Whether the writer still accepts entries.
    pub fn is_initialized(&self) -> (b: bool)
        ensures
            b == self.initialized(),
    {
        !self.finished
    }

    /// Stores `value` under `key`, replacing what the key held.
    ///
    /// An empty value of a vector type takes the sealed list of vector values
    /// for its payload, if there is one, and uses it up.  Nothing changes
    /// where the insert fails: for an empty key, for an entry whose offset the
    /// configured offset bits cannot express, and for a new key in a full
    /// table.
    pub fn insert_key(&mut self, key: &[u8], value: &[u8], key_type: KeyType) -> (done: Result<
        (),
        AxonCacheError,
    >)
        requires
            old(self).wf(),
        ensures
            final(self).wf(),
            final(self).same_settings(old(self)),
            final(self).initialized() == old(self).initialized(),
            final(self).staged() == old(self).staged(),
            final(self).image() == old(self).image(),
            final(self).timestamp() == old(self).timestamp(),
            final(self).generation() == old(self).generation(),
            match done {
                Ok(()) => {
                    let payload = old(self).payload_for(value@, key_type);
                    &&& old(self).insert_error(key@) is None
                    &&& final(self)@ == old(self)@.insert(key@, Entry { key_type, value: payload })
                    &&& final(self).slots() == old(self).slots().update(
                        old(self).slot_for(key@),
                        record_slot(key@, payload, key_type, old(self).next_offset() as int),
                    )
                    &&& final(self).heap() == old(self).heap() + record_bytes(key@, payload, key_type)
                    &&& final(self).sealed() == if old(self).claims_list(value@, key_type) {
                        Seq::<Seq<u8>>::empty()
                    } else {
                        old(self).sealed()
                    }
                    &&& final(self).max_collisions() == if old(self).collision_depth(key@) > old(
                        self,
                    ).max_collisions() {
                        old(self).collision_depth(key@) as u64
                    } else {
                        old(self).max_collisions()
                    }
                    &&& final(self).collision_counts() == if old(self)@.contains_key(key@) {
                        old(self).collision_counts()
                    } else {
                        bump(old(self).collision_counts(), old(self).collision_depth(key@))
                    }
                    &&& final(self).last_error() == old(self).last_error()
                },
                Err(e) => {
                    &&& old(self).insert_error(key@) == Some(e)
                    &&& final(self).same_contents(old(self))
                    &&& final(self).sealed() == old(self).sealed()
                    &&& final(self).last_error() == Some(e)
                },
            },
    {
        if self.finished {
            self.last_error = Some(AxonCacheError::UnInitialized);
            return Err(AxonCacheError::UnInitialized);
        }
        if key.len() == 0 {
            self.last_error = Some(AxonCacheError::EmptyKey);
            return Err(AxonCacheError::EmptyKey);
        }
        if self.table.heap.len() as u64 >= self.offset_limit {
            let e = AxonCacheError::OffsetBitsError(self.offset_bits);
            self.last_error = Some(e);
            return Err(e);
        }
        let hash = hash_key(key);
        let end = self.table.locate(key, hash);
        proof {
            lemma_probe_end(self.table.slots@, self.table.heap@, key@, hash, 0);
            lemma_exhausted_iff_full(self.table.slots@, self.table.heap@, key@, hash);
            lemma_occupied_bounds(self.table.slots@);
        }
        let cap: usize = self.table.slots.len();
        let home: usize = (hash % (cap as u64)) as usize;
        let (at, fresh): (usize, bool) = match end {
            Probe::Found(i) => (i, false),
            Probe::Vacant(i) => (i, true),
            Probe::Exhausted => {
                let e = AxonCacheError::ApiError(CODE_TABLE_FULL);
                self.last_error = Some(e);
                return Err(e);
            },
        };
        let depth: usize = if at >= home {
            at - home
        } else {
            at + (cap - home)
        };
        assert(depth == self.collision_depth(key@));
        let claimed: bool = value.len() == 0 && self.sealed.len() > 0 && match key_type {
            KeyType::Vector | KeyType::FloatVector => true,
            _ => false,
        };
        assert(claimed == self.claims_list(value@, key_type));
        let encoded: Vec<u8> = if claimed {
            encode_items(&self.sealed)
        } else {
            Vec::new()
        };
        let payload: &[u8] = if claimed {
            encoded.as_slice()
        } else {
            value
        };
        assert(payload@ == self.payload_for(value@, key_type));
        proof {
            if !fresh {
                lemma_counted_at_depth(self.table.slots@, at as int);
            } else {
                assert forall|d: int| 0 <= d < self.collisions@.len() implies #[trigger] self.collisions@[d]
                    < u64::MAX by {
                    lemma_count_bounds(at_depth(self.table.slots@, d));
                    assert(!at_depth(self.table.slots@, d)[at as int]);
                }
            }
        }
        self.table.put(at, key, payload, key_type, hash);
        proof {
            assert(slot_depth(self.table.slots@, at as int) == depth);
            assert forall|d: int|
                #[trigger] keys_at_depth(self.table.slots@, d) == keys_at_depth(
                    old(self).table.slots@,
                    d,
                ) + if fresh && d == depth {
                    1nat
                } else {
                    0nat
                } by {
                lemma_slot_replaced(old(self).table.slots@, self.table.slots@, at as int, d);
            }
            lemma_slot_replaced(old(self).table.slots@, self.table.slots@, at as int, 0);
        }
        if fresh {
            self.unique_keys = self.unique_keys + 1;
            bump_counts(&mut self.collisions, depth);
        }
        if depth as u64 > self.max_collisions {
            self.max_collisions = depth as u64;
        }
        if claimed {
            self.sealed = Vec::new();
            proof {
                assert(self.sealed() =~= Seq::<Seq<u8>>::empty());
            }
        }
        Ok(())
    }

    /// Appends `value` to the staged vector values.  A value with a NUL byte
    /// is refused with `NulError`, and nothing changes.  The values are kept
    /// as their bytes, whatever type is named.
    #[allow(unused_variables)]
    pub fn add_duplicate_value(&mut self, value: &str, query_type: KeyType) -> (done: Result<
        (),
        AxonCacheError,
    >)
        requires
            old(self).wf(),
        ensures
            final(self).wf(),
            final(self).same_settings(old(self)),
            final(self).same_contents(old(self)),
            final(self).sealed() == old(self).sealed(),
            match done {
                Ok(()) => {
                    &&& nul_free(value.spec_bytes())
                    &&& final(self).staged() == old(self).staged().push(value.spec_bytes())
                    &&& final(self).last_error() == old(self).last_error()
                },
                Err(e) => {
                    &&& e == AxonCacheError::NulError
                    &&& !nul_free(value.spec_bytes())
                    &&& final(self).staged() == old(self).staged()
                    &&& final(self).last_error() == Some(e)
                },
            },
    {
        let bytes = value.as_bytes();
        if has_nul(bytes) {
            self.last_error = Some(AxonCacheError::NulError);
            return Err(AxonCacheError::NulError);
        }
        let item = copy_range(bytes, 0, bytes.len());
        proof {
            assert(item@ =~= value.spec_bytes());
        }
        self.staged.push(item);
        proof {
            assert(self.staged() =~= old(self).staged().push(value.spec_bytes()));
        }
        Ok(())
    }

    /// Seals the staged vector values: they become the list that the next
    /// insert of an empty vector value takes, in place of an earlier sealed
    /// list, and the staging buffer is empty again.  With nothing staged,
    /// nothing changes.
    pub fn finish_add_duplicate_values(&mut self) -> (done: Result<(), AxonCacheError>)
        requires
            old(self).wf(),
        ensures
            final(self).wf(),
            final(self).same_settings(old(self)),
            final(self).same_contents(old(self)),
            match done {
                Ok(()) => {
                    &&& old(self).initialized()
                    &&& final(self).staged() == Seq::<Seq<u8>>::empty()
                    &&& final(self).sealed() == if old(self).staged().len() == 0 {
                        old(self).sealed()
                    } else {
                        old(self).staged()
                    }
                    &&& final(self).last_error() == old(self).last_error()
                },
                Err(e) => {
                    &&& e == AxonCacheError::UnInitialized
                    &&& !old(self).initialized()
                    &&& final(self).staged() == old(self).staged()
                    &&& final(self).sealed() == old(self).sealed()
                    &&& final(self).last_error() == Some(e)
                },
            },
    {
        if self.finished {
            self.last_error = Some(AxonCacheError::UnInitialized);
            return Err(AxonCacheError::UnInitialized);
        }
        if self.staged.len() > 0 {
            let mut moved: Vec<Vec<u8>> = Vec::new();
            std::mem::swap(&mut moved, &mut self.staged);
            self.sealed = moved;
        }
        proof {
            assert(self.staged() =~= Seq::<Seq<u8>>::empty());
        }
        Ok(())
    }

    /// Finishes the generation: the table is written out as a cache image
    /// that stands for exactly the entries collected, and the generation is
    /// named after `now_millis`, the current time in milliseconds.  Afterwards
    /// the writer accepts no more entries.  Staged vector values that were
    /// never sealed are an error, and so is a clock reading that is 0 or
    /// beyond the 64-bit signed range, which no reader takes for the
    /// timestamp of a generation; nothing changes then.
    pub fn finish_cache_creation(&mut self, now_millis: u64) -> (done: Result<String, AxonCacheError>)
        requires
            old(self).wf(),
        ensures
            final(self).wf(),
            final(self).same_settings(old(self)),
            final(self).slots() == old(self).slots(),
            final(self).heap() == old(self).heap(),
            final(self).staged() == old(self).staged(),
            final(self).sealed() == old(self).sealed(),
            final(self).max_collisions() == old(self).max_collisions(),
            final(self).collision_counts() == old(self).collision_counts(),
            match done {
                Ok(timestamp) => {
                    &&& old(self).finish_error(now_millis) is None
                    &&& !final(self).initialized()
                    &&& final(self).generation() == now_millis
                    &&& timestamp@ == decimal(now_millis as nat)
                    &&& parse_integer(encode_utf8(timestamp@)) == Some(now_millis as int)
                    &&& final(self).timestamp() == timestamp@
                    &&& final(self).image() == encode_image(
                        final(self).slots(),
                        final(self).heap(),
                        final(self).offset_bits() as nat,
                    )
                    &&& image_ok(final(self).image())
                    &&& image_view(final(self).image()) == final(self)@
                    &&& image_bits(final(self).image()) == final(self).offset_bits()
                    &&& final(self).last_error() == old(self).last_error()
                },
                Err(e) => {
                    &&& old(self).finish_error(now_millis) == Some(e)
                    &&& final(self).same_contents(old(self))
                    &&& final(self).last_error() == Some(e)
                },
            },
    {
        if self.finished {
            self.last_error = Some(AxonCacheError::UnInitialized);
            return Err(AxonCacheError::UnInitialized);
        }
        if self.staged.len() > 0 {
            let e = AxonCacheError::ApiError(CODE_UNSEALED_VALUES);
            self.last_error = Some(e);
            return Err(e);
        }
        if now_millis == 0 || now_millis > i64::MAX as u64 {
            let e = AxonCacheError::ApiError(CODE_INVALID_ARGUMENT);
            self.last_error = Some(e);
            return Err(e);
        }
        proof {
            assert(self.table.slots@.len() == self.table.slots.len());
            assert(self.table.heap@.len() == self.table.heap.len());
            lemma_image_round_trip(self.table.slots@, self.table.heap@, self.offset_bits as nat);
            lemma_decimal_parses(now_millis as nat);
        }
        self.image = encode(&self.table, self.offset_bits as u8);
        self.timestamp = decimal_string(now_millis);
        self.finished_at = now_millis;
        self.finished = true;
        Ok(self.timestamp.clone())
    }

    /// The image of the finished generation; empty before the writer is
    /// finished.
    pub fn cache_image(&self) -> (image: &Vec<u8>)
        ensures
            image@ == self.image(),
    {
        &self.image
    }

    /// The steps that publish the finished generation.
    pub fn publish_steps(&self) -> (steps: Vec<PublishStep>)
        ensures
            actions_of(steps@) == self.publish_plan(),
    {
        let mut steps: Vec<PublishStep> = Vec::new();
        if !self.finished {
            proof {
                assert(actions_of(steps@) =~= self.publish_plan());
            }
            return steps;
        }
        let folder = self.destination_folder.as_str();
        let task = self.task_name.as_str();
        let image = copy_range(self.image.as_slice(), 0, self.image.len());
        assert(image@ =~= self.image@);
        let write = PublishStep::WriteFile { path: working_file_name(folder, task), contents: image };
        let ghost first = seq![write@];
        steps.push(write);
        assert(actions_of(steps@) =~= first);
        let ghost second = first;
        if self.generate_timestamp_file {
            let stamp = self.timestamp.as_str().as_bytes();
            let contents = copy_range(stamp, 0, stamp.len());
            assert(contents@ =~= encode_utf8(self.timestamp@));
            let mark = PublishStep::WriteFile { path: latest_marker_name(folder, task), contents };
            proof {
                second = first.push(mark@);
            }
            steps.push(mark);
            assert(actions_of(steps@) =~= second);
        }
        let ghost third = second;
        if self.rename_cache_file {
            let rename = PublishStep::Rename {
                from: working_file_name(folder, task),
                to: generation_file_name(folder, task, self.timestamp.as_str()),
            };
            proof {
                third = second.push(rename@);
            }
            steps.push(rename);
            assert(actions_of(steps@) =~= third);
        }
        proof {
            assert(third =~= self.publish_plan());
        }
        steps
    }

    /// The name of the settings file of a task: the one given, or
    /// `<folder>/<task>.properties` where none is given.
    pub fn settings_location(options: &CacheWriterOptions) -> (name: String)
        ensures
            name@ == if options.settings_location@.len() == 0 {
                settings_file(options.destination_folder@, options.task_name@)
            } else {
                options.settings_location@
            },
    {
        if options.settings_location.as_str().is_empty() {
            settings_file_name(options.destination_folder.as_str(), options.task_name.as_str())
        } else {
            options.settings_location.clone()
        }
    }

    /// The version of the cache format that the writer produces.
    pub fn get_version(&self) -> (version: String)
        ensures
            version@ == "1.0.0"@,
    {
        "1.0.0".to_owned()
    }

    /// The name of the hash function that places the keys.
    pub fn get_hash_function(&self) -> (name: String)
        ensures
            name@ == "fnv1a_64"@,
    {
        hash_function_name().to_owned()
    }

    /// The collision histogram, as text: for each probe depth up to the
    /// largest, the number of keys that sit at it.
    pub fn get_collisions_counter(&self) -> (text: String)
        requires
            self.wf(),
        ensures
            text@ == histogram_text(self.collision_counts()),
            is_depth_histogram(self.collision_counts(), self.slots()),
    {
        let mut text = String::new();
        let mut d: usize = 0;
        proof {
            assert(self.collisions@.subrange(0, 0) =~= Seq::<u64>::empty());
        }
        while d < self.collisions.len()
            invariant
                d <= self.collisions@.len(),
                text@ == histogram_text(self.collisions@.subrange(0, d as int)),
            decreases self.collisions@.len() - d,
        {
            let ghost before = text@;
            if d > 0 {
                text.append(",");
            }
            push_decimal(&mut text, d as u64);
            text.append(":");
            push_decimal(&mut text, self.collisions[d]);
            proof {
                let done = self.collisions@.subrange(0, d as int);
                let next = self.collisions@.subrange(0, d + 1);
                assert(next.drop_last() =~= done);
                assert(next.last() == self.collisions@[d as int]);
                assert(text@ =~= histogram_text(next));
            }
            d = d + 1;
        }
        proof {
            assert(self.collisions@.subrange(0, d as int) =~= self.collisions@);
        }
        text
    }

    /// The message of the last failure; empty where no operation has failed.
    pub fn get_last_error(&self) -> (text: String)
        ensures
            text@ == match self.last_error() {
                Some(e) => e.spec_message(),
                None => Seq::<char>::empty(),
            },
    {
        match &self.last_error {
            Some(e) => e.message(),
            None => String::new(),
        }
    }

    /// The number of distinct keys stored so far; never more than there are
    /// slots.
    pub fn get_unique_keys(&self) -> (n: u64)
        requires
            self.wf(),
        ensures
            self@.dom().finite(),
            n == self@.dom().len(),
            n <= self.capacity(),
    {
        proof {
            lemma_occupied_bounds(self.table.slots@);
        }
        self.unique_keys
    }

    /// The largest collision depth of an insert so far: the largest number of
    /// steps that the probe sequence of a stored key takes to its slot.
    pub fn get_max_collisions(&self) -> (n: u64)
        requires
            self.wf(),
        ensures
            n == self.max_collisions(),
            is_largest_depth(n as int, self.slots()),
    {
        self.max_collisions
    }
}

} // verus!
