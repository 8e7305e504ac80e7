//! What holds of the engine as a whole: a generation that is built and then
//! opened gives back what was put in.

use vstd::prelude::*;
use vstd::utf8::{decode_utf8, encode_utf8, valid_utf8};
use crate::codec::{
    le_bytes, le_value, lemma_le_bytes_len, lemma_pow256_values, lemma_value_round_trip,
    scalar_bits, two_to,
};
use crate::error::AxonCacheError;
use crate::format::{image_ok, image_view};
use crate::list::{decode_list, encode_list, lemma_list_round_trip, nul_free};
use crate::reader::{
    all_utf8, as_i32, as_i64, bits_of_i32, bits_of_i64, decoded_items, CacheReader,
};
use crate::text::parse_integer;
use crate::writer::CacheWriter;

verus! {

/// The reader has loaded the generation of the finished writer: it is left
/// as `update` leaves a reader that is handed the writer's timestamp and
/// image.
pub open spec fn opened(reader: CacheReader, writer: CacheWriter) -> bool {
    &&& parse_integer(encode_utf8(writer.timestamp())) is Some
    &&& reader.generation() == parse_integer(encode_utf8(writer.timestamp()))->Some_0
    &&& reader@ == image_view(writer.image())
}

/// A finished generation loads.  The image of a finished writer is a cache
/// image and its timestamp is a positive integer, so `update` with the two
/// has no ground to refuse them, and the reader that took them answers
/// lookups.
pub proof fn law_finished_generation_loads(writer: CacheWriter, reader: CacheReader)
    requires
        writer.wf(),
        !writer.initialized(),
    ensures
        image_ok(writer.image()),
        parse_integer(encode_utf8(writer.timestamp())) == Some(writer.generation() as int),
        writer.generation() > 0,
        opened(reader, writer) ==> reader.initialized(),
{
    writer.lemma_finished_image();
}

/// Build, then open.  A reader that has loaded the generation of a finished
/// writer holds every entry of the writer: it contains the key, and the key
/// maps to the type and the bytes that were inserted last.
pub proof fn law_build_then_open(writer: CacheWriter, reader: CacheReader, key: Seq<u8>)
    requires
        writer.wf(),
        !writer.initialized(),
        opened(reader, writer),
        writer@.contains_key(key),
    ensures
        reader.initialized(),
        reader.holds(key) == Ok::<bool, AxonCacheError>(true),
        reader.lookup_error(key) is None,
        reader@[key] == writer@[key],
{
    writer.lemma_finished_image();
}

/// A string reads back.  Where the writer held the encoding of a text under
/// a key, `get_key` answers that text: the same characters, as many, and
/// from no other key.
pub proof fn law_string_reads_back(
    writer: CacheWriter,
    reader: CacheReader,
    key: Seq<u8>,
    text: Seq<char>,
)
    requires
        writer.wf(),
        !writer.initialized(),
        opened(reader, writer),
        writer@.contains_key(key),
        writer@[key].value == encode_utf8(text),
    ensures
        reader.text_of(key) == Ok::<Seq<char>, AxonCacheError>(text),
{
    writer.lemma_finished_image();
    vstd::utf8::encode_utf8_valid_utf8(text);
    vstd::utf8::encode_utf8_decode_utf8(text);
}

/// A vector reads back in order.  Where the writer held, under a key, the
/// payload of a list of texts without NUL bytes, `get_vector` answers those
/// texts: as many as were appended, each at its place, none left out, none
/// merged.
pub proof fn law_vector_reads_back(
    writer: CacheWriter,
    reader: CacheReader,
    key: Seq<u8>,
    texts: Seq<Seq<char>>,
)
    requires
        writer.wf(),
        !writer.initialized(),
        opened(reader, writer),
        writer@.contains_key(key),
        writer@[key].value == encode_list(encoded_texts(texts)),
        forall|i: int| 0 <= i < texts.len() ==> nul_free(encode_utf8(#[trigger] texts[i])),
    ensures
        reader.list_of(key) == Ok::<Seq<Seq<char>>, AxonCacheError>(texts),
{
    writer.lemma_finished_image();
    law_vector_round_trip(texts);
}

/// A key that the writer never held is not found: a reader that has loaded
/// the generation of a finished writer answers `NotFound` for it, and that it
/// does not contain it.
pub proof fn law_absent_key_not_found(writer: CacheWriter, reader: CacheReader, key: Seq<u8>)
    requires
        writer.wf(),
        !writer.initialized(),
        opened(reader, writer),
        !writer@.contains_key(key),
    ensures
        reader.lookup_error(key) == Some(AxonCacheError::NotFound),
        reader.holds(key) == Ok::<bool, AxonCacheError>(false),
        reader.text_of(key) == Err::<Seq<char>, AxonCacheError>(AxonCacheError::NotFound),
{
    writer.lemma_finished_image();
}

/// A writer that accepts entries refuses the empty key with `EmptyKey`,
/// whatever else holds of it.
pub proof fn law_empty_key_refused(writer: CacheWriter)
    requires
        writer.initialized(),
    ensures
        writer.insert_error(Seq::<u8>::empty()) == Some(AxonCacheError::EmptyKey),
{
}

/// An entry whose offset the configured offset bits cannot express is
/// refused: once the heap has reached `2^offset_bits` bytes, a writer that
/// accepts entries answers `OffsetBitsError` to every key that is not empty.
pub proof fn law_offset_overflow_refused(writer: CacheWriter, key: Seq<u8>)
    requires
        writer.initialized(),
        key.len() > 0,
        writer.next_offset() >= two_to(writer.offset_bits() as nat),
    ensures
        writer.insert_error(key) == Some(AxonCacheError::OffsetBitsError(writer.offset_bits())),
{
}

/// A generation that was swapped in answers alone.  Whatever a reader held
/// before, once it has loaded an image a lookup is answered from that image
/// and from nothing else: a key is found exactly when the image holds it, and
/// then with the entry that the image gives it.
pub proof fn law_swap_is_whole(reader: CacheReader, image: Seq<u8>, key: Seq<u8>)
    requires
        reader.initialized(),
        reader@ == image_view(image),
    ensures
        reader.lookup_error(key) is None <==> image_view(image).contains_key(key),
        reader.lookup_error(key) is None ==> reader@[key] == image_view(image)[key],
        !image_view(image).contains_key(key) ==> reader.lookup_error(key) == Some(
            AxonCacheError::NotFound,
        ),
{
}

/// Opening twice.  Two readers that have loaded the same image hold the same
/// entries, and a lookup fails in one exactly as it fails in the other.
pub proof fn law_reopen_same_answers(
    first: CacheReader,
    second: CacheReader,
    image: Seq<u8>,
    key: Seq<u8>,
)
    requires
        first.initialized(),
        second.initialized(),
        first@ == image_view(image),
        second@ == image_view(image),
    ensures
        first@ == second@,
        first.lookup_error(key) == second.lookup_error(key),
{
}

/// The little-endian bytes of a 32-bit integer read back as the integer.
pub proof fn law_int_round_trip(x: i32)
    ensures
        as_i32(scalar_bits(le_bytes(bits_of_i32(x), 4), 4)) == x,
{
    let bits = bits_of_i32(x);
    lemma_pow256_values();
    lemma_le_bytes_len(bits, 4);
    lemma_value_round_trip(bits, 4);
    let bytes = le_bytes(bits, 4);
    assert(bytes.subrange(0, 4) =~= bytes);
}

/// The little-endian bytes of a 64-bit integer read back as the integer.
pub proof fn law_long_round_trip(x: i64)
    ensures
        as_i64(scalar_bits(le_bytes(bits_of_i64(x), 8), 8)) == x,
{
    let bits = bits_of_i64(x);
    lemma_pow256_values();
    lemma_le_bytes_len(bits, 8);
    lemma_value_round_trip(bits, 8);
    let bytes = le_bytes(bits, 8);
    assert(bytes.subrange(0, 8) =~= bytes);
}

/// The little-endian bytes of the bits of a double read back as the bits.
pub proof fn law_double_round_trip(bits: u64)
    ensures
        scalar_bits(le_bytes(bits as nat, 8), 8) == bits,
{
    lemma_pow256_values();
    lemma_le_bytes_len(bits as nat, 8);
    lemma_value_round_trip(bits as nat, 8);
    let bytes = le_bytes(bits as nat, 8);
    assert(bytes.subrange(0, 8) =~= bytes);
}

/// The byte of a boolean reads back as the boolean.
pub proof fn law_bool_round_trip(b: bool)
    ensures
        (scalar_bits(
            seq![if b {
                1u8
            } else {
                0u8
            }],
            1,
        ) != 0) == b,
{
    let bytes = seq![if b {
        1u8
    } else {
        0u8
    }];
    assert(bytes.subrange(0, 1) =~= bytes);
    assert(bytes.subrange(1, 1) =~= Seq::<u8>::empty());
    assert(le_value(bytes.subrange(1, 1)) == 0);
    assert(le_value(bytes) == bytes[0] as nat + 256 * le_value(bytes.subrange(1, 1)));
}

/// The bytes of a string read back as the string.
pub proof fn law_string_round_trip(text: Seq<char>)
    ensures
        valid_utf8(encode_utf8(text)),
        decode_utf8(encode_utf8(text)) == text,
{
    vstd::utf8::encode_utf8_valid_utf8(text);
    vstd::utf8::encode_utf8_decode_utf8(text);
}

/// The byte strings that encode the texts.
pub open spec fn encoded_texts(texts: Seq<Seq<char>>) -> Seq<Seq<u8>> {
    Seq::new(texts.len(), |i: int| encode_utf8(texts[i]))
}

/// The items that encode texts are all UTF-8, and decode to the texts.
pub proof fn lemma_texts_decode(texts: Seq<Seq<char>>)
    ensures
        all_utf8(encoded_texts(texts)),
        decoded_items(encoded_texts(texts)) == texts,
{
    let items = encoded_texts(texts);
    assert forall|i: int| 0 <= i < items.len() implies valid_utf8(#[trigger] items[i])
        && decode_utf8(items[i]) == texts[i] by {
        vstd::utf8::encode_utf8_valid_utf8(texts[i]);
        vstd::utf8::encode_utf8_decode_utf8(texts[i]);
    }
    assert(decoded_items(items) =~= texts);
}

/// A vector keeps its order.  The payload of a list of texts without NUL
/// bytes reads back as the same texts, as many and first to last.
pub proof fn law_vector_round_trip(texts: Seq<Seq<char>>)
    requires
        forall|i: int| 0 <= i < texts.len() ==> nul_free(encode_utf8(#[trigger] texts[i])),
    ensures
        decode_list(encode_list(encoded_texts(texts))) == encoded_texts(texts),
        all_utf8(decode_list(encode_list(encoded_texts(texts)))),
        decoded_items(decode_list(encode_list(encoded_texts(texts)))) == texts,
{
    let items = encoded_texts(texts);
    assert forall|i: int| 0 <= i < items.len() implies nul_free(#[trigger] items[i]) by {
        assert(nul_free(encode_utf8(texts[i])));
    }
    lemma_list_round_trip(items);
    lemma_texts_decode(texts);
}

/// The sealed list of a writer reads back from the payload that an insert
/// takes from it: the same items, first to last.
pub proof fn law_sealed_list_reads_back(writer: CacheWriter)
    requires
        writer.wf(),
    ensures
        decode_list(encode_list(writer.sealed())) == writer.sealed(),
{
    writer.lemma_vector_values_nul_free();
    lemma_list_round_trip(writer.sealed());
}

} // verus!
