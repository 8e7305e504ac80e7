//! The payload of a vector entry: a list of byte strings, each followed by a
//! NUL byte.
//!
//! Every byte string reads as some list, so a lookup that reads a value of
//! another type as a vector still has an answer; and a list of NUL-free items
//! reads back as itself.

use vstd::prelude::*;
use crate::codec::copy_range;

verus! {

/// The items, each followed by a NUL byte, one after the other.
pub open spec fn encode_list(items: Seq<Seq<u8>>) -> Seq<u8>
    decreases items.len(),
{
    if items.len() == 0 {
        Seq::<u8>::empty()
    } else {
        items[0] + seq![0u8] + encode_list(items.subrange(1, items.len() as int))
    }
}

/// The length of the longest NUL-free prefix of `bytes`.
pub open spec fn first_nul(bytes: Seq<u8>) -> int
    decreases bytes.len(),
{
    if bytes.len() == 0 || bytes[0] == 0 {
        0
    } else {
        1 + first_nul(bytes.subrange(1, bytes.len() as int))
    }
}

/// The items of a payload: the stretches between NUL bytes; what follows the
/// last NUL byte is an item too, unless it is empty.
pub open spec fn decode_list(bytes: Seq<u8>) -> Seq<Seq<u8>>
    decreases bytes.len(),
    via decode_list_decreases
{
    if bytes.len() == 0 {
        Seq::<Seq<u8>>::empty()
    } else {
        let n = first_nul(bytes);
        if n >= bytes.len() {
            seq![bytes]
        } else {
            seq![bytes.subrange(0, n)] + decode_list(bytes.subrange(n + 1, bytes.len() as int))
        }
    }
}

#[via_fn]
proof fn decode_list_decreases(bytes: Seq<u8>) {
    if bytes.len() != 0 {
        lemma_first_nul(bytes);
    }
}

/// Whether `bytes` has no NUL byte.
pub open spec fn nul_free(bytes: Seq<u8>) -> bool {
    forall|i: int| 0 <= i < bytes.len() ==> bytes[i] != 0
}

/// The byte strings that the vectors of `items` hold.
pub open spec fn views_of(items: Seq<Vec<u8>>) -> Seq<Seq<u8>> {
    Seq::new(items.len(), |i: int| items[i]@)
}

/// `first_nul` stays within the byte string, has only non-NUL bytes before it
/// and, inside the string, a NUL byte at it.
pub proof fn lemma_first_nul(bytes: Seq<u8>)
    ensures
        0 <= first_nul(bytes) <= bytes.len(),
        forall|i: int| 0 <= i < first_nul(bytes) ==> bytes[i] != 0,
        first_nul(bytes) < bytes.len() ==> bytes[first_nul(bytes)] == 0,
    decreases bytes.len(),
{
    if bytes.len() != 0 && bytes[0] != 0 {
        let rest = bytes.subrange(1, bytes.len() as int);
        lemma_first_nul(rest);
        assert forall|i: int| 0 <= i < first_nul(bytes) implies bytes[i] != 0 by {
            if i > 0 {
                assert(bytes[i] == rest[i - 1]);
            }
        }
        if first_nul(bytes) < bytes.len() {
            assert(bytes[first_nul(bytes)] == rest[first_nul(rest)]);
        }
    }
}

/// The position `n` is `first_nul` when no byte before it is NUL and it is the
/// end of the string or a NUL byte.
pub proof fn lemma_first_nul_is(bytes: Seq<u8>, n: int)
    requires
        0 <= n <= bytes.len(),
        forall|i: int| 0 <= i < n ==> bytes[i] != 0,
        n < bytes.len() ==> bytes[n] == 0,
    ensures
        first_nul(bytes) == n,
{
    lemma_first_nul(bytes);
    let m = first_nul(bytes);
    if m < n {
        assert(bytes[m] == 0);
    } else if n < m {
        assert(bytes[n] == 0);
    }
}

/// Appending an item to a list appends the item and a NUL byte to the payload.
pub proof fn lemma_encode_push(items: Seq<Seq<u8>>, item: Seq<u8>)
    ensures
        encode_list(items.push(item)) == encode_list(items) + item + seq![0u8],
    decreases items.len(),
{
    let all = items.push(item);
    if items.len() == 0 {
        let none = all.subrange(1, all.len() as int);
        assert(none =~= Seq::<Seq<u8>>::empty());
        assert(encode_list(none) =~= Seq::<u8>::empty());
        assert(all[0] == item);
        assert(encode_list(all) =~= item + seq![0u8]);
        assert(encode_list(items) + item + seq![0u8] =~= item + seq![0u8]);
    } else {
        let rest = items.subrange(1, items.len() as int);
        lemma_encode_push(rest, item);
        assert(all.subrange(1, all.len() as int) =~= rest.push(item));
        assert(all[0] == items[0]);
        assert(encode_list(all) =~= encode_list(items) + item + seq![0u8]);
    }
}

/// A list of NUL-free items reads back from its payload as itself.
pub proof fn lemma_list_round_trip(items: Seq<Seq<u8>>)
    requires
        forall|i: int| 0 <= i < items.len() ==> nul_free(#[trigger] items[i]),
    ensures
        decode_list(encode_list(items)) == items,
    decreases items.len(),
{
    if items.len() == 0 {
        assert(decode_list(encode_list(items)) =~= items);
    } else {
        let rest = items.subrange(1, items.len() as int);
        let payload = encode_list(items);
        let n = items[0].len() as int;
        assert(nul_free(items[0]));
        assert forall|i: int| 0 <= i < rest.len() implies nul_free(#[trigger] rest[i]) by {
            assert(rest[i] == items[i + 1]);
        }
        lemma_list_round_trip(rest);
        assert(payload == items[0] + seq![0u8] + encode_list(rest));
        assert(payload[n] == 0);
        assert forall|i: int| 0 <= i < n implies payload[i] != 0 by {
            assert(payload[i] == items[0][i]);
        }
        lemma_first_nul_is(payload, n);
        assert(payload.subrange(0, n) =~= items[0]);
        assert(payload.subrange(n + 1, payload.len() as int) =~= encode_list(rest));
        assert(decode_list(payload) =~= items);
    }
}

/// Whether `bytes` contains a NUL byte.
pub fn has_nul(bytes: &[u8]) -> (found: bool)
    ensures
        found == !nul_free(bytes@),
{
    let mut i: usize = 0;
    while i < bytes.len()
        invariant
            i <= bytes.len(),
            forall|j: int| 0 <= j < i ==> bytes@[j] != 0,
        decreases bytes.len() - i,
    {
        if bytes[i] == 0 {
            return true;
        }
        i = i + 1;
    }
    false
}

/// Writes the payload of a list.
pub fn encode_items(items: &Vec<Vec<u8>>) -> (payload: Vec<u8>)
    ensures
        payload@ == encode_list(views_of(items@)),
{
    let mut payload: Vec<u8> = Vec::new();
    let mut i: usize = 0;
    let ghost all = views_of(items@);
    while i < items.len()
        invariant
            i <= items.len(),
            all == views_of(items@),
            payload@ == encode_list(all.subrange(0, i as int)),
        decreases items.len() - i,
    {
        proof {
            lemma_encode_push(all.subrange(0, i as int), all[i as int]);
            assert(all.subrange(0, i as int).push(all[i as int]) =~= all.subrange(0, i + 1));
        }
        payload.extend_from_slice(items[i].as_slice());
        payload.push(0);
        i = i + 1;
    }
    proof {
        assert(all.subrange(0, i as int) =~= all);
    }
    payload
}

/// Reads the items of a payload.
pub fn decode_items(bytes: &[u8]) -> (items: Vec<Vec<u8>>)
    ensures
        views_of(items@) == decode_list(bytes@),
{
    let mut items: Vec<Vec<u8>> = Vec::new();
    let mut pos: usize = 0;
    let len: usize = bytes.len();
    proof {
        assert(bytes@.subrange(0, len as int) =~= bytes@);
        assert(views_of(items@) + decode_list(bytes@) =~= decode_list(bytes@));
    }
    while pos < len
        invariant
            pos <= len,
            len == bytes.len(),
            views_of(items@) + decode_list(bytes@.subrange(pos as int, len as int)) == decode_list(
                bytes@,
            ),
        decreases len - pos,
    {
        let mut end: usize = pos;
        while end < len && bytes[end] != 0
            invariant
                pos <= end <= len,
                len == bytes.len(),
                forall|j: int| pos <= j < end ==> bytes@[j] != 0,
            decreases len - end,
        {
            end = end + 1;
        }
        let item = copy_range(bytes, pos, end - pos);
        let ghost before = views_of(items@);
        let ghost rest = bytes@.subrange(pos as int, len as int);
        proof {
            lemma_first_nul_is(rest, end - pos);
            assert(rest.subrange(0, end - pos) =~= item@);
        }
        items.push(item);
        proof {
            assert(views_of(items@) =~= before.push(item@));
        }
        if end < len {
            proof {
                assert(rest.subrange(end - pos + 1, rest.len() as int) =~= bytes@.subrange(
                    end + 1,
                    len as int,
                ));
                assert(before.push(item@) + decode_list(bytes@.subrange(end + 1, len as int))
                    =~= before + decode_list(rest));
            }
            pos = end + 1;
        } else {
            proof {
                assert(rest.subrange(0, end - pos) =~= rest);
                assert(bytes@.subrange(len as int, len as int) =~= Seq::<u8>::empty());
                assert(before.push(item@) + decode_list(bytes@.subrange(len as int, len as int))
                    =~= before + decode_list(rest));
            }
            pos = len;
        }
    }
    proof {
        assert(bytes@.subrange(pos as int, len as int) =~= Seq::<u8>::empty());
        assert(views_of(items@) + decode_list(Seq::<u8>::empty()) =~= views_of(items@));
    }
    items
}

} // verus!
