//! The format of the blob that persists an index and the document identifiers
//! of its rows.

use vstd::prelude::*;
use vstd::bytes::*;
use vstd::utf8::*;
use crate::index::IndexModel;

verus! {

/// The tag that opens every blob: the letters `SIMIDX`, then the format's
/// version as two bytes.
pub open spec fn tag() -> Seq<u8> {
    seq![0x53u8, 0x49u8, 0x4du8, 0x49u8, 0x44u8, 0x58u8, 0x00u8, 0x01u8]
}

/// A count or a length as it stands in a blob: eight bytes, least significant
/// byte at the front.
pub open spec fn encode_count(n: nat) -> Seq<u8> {
    spec_u64_to_le_bytes(n as u64)
}

/// The components of a vector, four bytes each, least significant byte at the
/// front.
pub open spec fn encode_vector(vector: Seq<u32>) -> Seq<u8>
    decreases vector.len(),
{
    if vector.len() == 0 {
        Seq::empty()
    } else {
        encode_vector(vector.drop_last()) + spec_u32_to_le_bytes(vector.last())
    }
}

/// The vectors of an index one after the other, in the order of their row ids.
pub open spec fn encode_rows(rows: Seq<Seq<u32>>) -> Seq<u8>
    decreases rows.len(),
{
    if rows.len() == 0 {
        Seq::empty()
    } else {
        encode_rows(rows.drop_last()) + encode_vector(rows.last())
    }
}

/// A document identifier: the length of its UTF-8 form, then that form.
pub open spec fn encode_id(id: Seq<char>) -> Seq<u8> {
    encode_count(encode_utf8(id).len()) + encode_utf8(id)
}

/// Document identifiers one after the other.
pub open spec fn encode_ids(ids: Seq<Seq<char>>) -> Seq<u8>
    decreases ids.len(),
{
    if ids.len() == 0 {
        Seq::empty()
    } else {
        encode_ids(ids.drop_last()) + encode_id(ids.last())
    }
}

/// The body of the blob that holds an index and the document identifiers of
/// its rows: the tag, the dimension, the number of rows, the vectors in the
/// order of their row ids, the number of identifiers, and the identifiers in
/// the order of the row ids they belong to.
pub open spec fn encode_body(index: IndexModel, ids: Seq<Seq<char>>) -> Seq<u8> {
    tag() + encode_count(index.dimension) + encode_count(index.rows.len()) + encode_rows(index.rows)
        + encode_count(ids.len()) + encode_ids(ids)
}

/// What the identifiers hold, position by position.
pub open spec fn id_views(ids: Seq<String>) -> Seq<Seq<char>> {
    Seq::new(ids.len(), |i: int| ids[i]@)
}

/// The modulus of the two sums of the checksum: the largest prime below 2^16.
pub const CHECKSUM_MODULUS: u32 = 65521;

/// The two sums of the checksum over `bytes`: the first is 1 plus the sum of
/// the bytes, the second is the sum of the values that the first sum took
/// byte after byte, both modulo the modulus.
pub open spec fn checksum_sums(bytes: Seq<u8>) -> (int, int)
    decreases bytes.len(),
{
    if bytes.len() == 0 {
        (1, 0)
    } else {
        let (a, b) = checksum_sums(bytes.drop_last());
        let sum = (a + bytes.last()) % (CHECKSUM_MODULUS as int);
        (sum, (b + sum) % (CHECKSUM_MODULUS as int))
    }
}

/// The Adler-32 checksum of `bytes`: the second sum in the upper sixteen bits,
/// the first in the lower.
pub open spec fn checksum(bytes: Seq<u8>) -> u32 {
    let (a, b) = checksum_sums(bytes);
    (b * 65536 + a) as u32
}

/// The blob that holds an index and the document identifiers of its rows: the
/// body, then the checksum of the body as four bytes, least significant byte at
/// the front.
pub open spec fn encode_blob(index: IndexModel, ids: Seq<Seq<char>>) -> Seq<u8> {
    encode_body(index, ids) + spec_u32_to_le_bytes(checksum(encode_body(index, ids)))
}

/// The count that stands in `bytes` at position `at`.
pub open spec fn count_at(bytes: Seq<u8>, at: int) -> nat {
    spec_u64_from_le_bytes(bytes.subrange(at, at + 8)) as nat
}

/// The vector component that stands in `bytes` at position `at`.
pub open spec fn component_at(bytes: Seq<u8>, at: int) -> u32 {
    spec_u32_from_le_bytes(bytes.subrange(at, at + 4))
}

/// The position in a blob of component `c` of row `r`, for vectors of the given
/// dimension.
pub open spec fn component_position(dimension: nat, r: int, c: int) -> int {
    24 + 4 * (r * dimension + c)
}

/// The `rows` vectors of the given dimension that stand in `body` behind the
/// head.
pub open spec fn decode_rows(body: Seq<u8>, dimension: nat, rows: nat) -> Seq<Seq<u32>> {
    Seq::new(
        rows,
        |r: int|
            Seq::new(dimension, |c: int| component_at(body, component_position(dimension, r, c))),
    )
}

/// `ids` with the identifiers `rest` behind them, where there are any.
pub open spec fn followed_by(ids: Seq<Seq<char>>, rest: Option<Seq<Seq<char>>>) -> Option<
    Seq<Seq<char>>,
> {
    match rest {
        Some(more) => Some(ids + more),
        None => None,
    }
}

/// The `count` document identifiers that stand in `body` from position `at` to
/// its end, or `None` where the bytes from there on are not `count`
/// identifiers.
pub open spec fn decode_ids(body: Seq<u8>, at: int, count: nat) -> Option<Seq<Seq<char>>>
    decreases count,
{
    if count == 0 {
        if at == body.len() {
            Some(Seq::empty())
        } else {
            None
        }
    } else if at + 8 > body.len() {
        None
    } else {
        let end = at + 8 + count_at(body, at);
        if end > body.len() || !valid_utf8(body.subrange(at + 8, end)) {
            None
        } else {
            followed_by(
                seq![decode_utf8(body.subrange(at + 8, end))],
                decode_ids(body, end, (count - 1) as nat),
            )
        }
    }
}

/// The index and the document identifiers that `body` holds, or `None` where
/// `body` is not the body of a body: where it is too short for its head, does
/// not open with the tag, names a dimension beyond what this machine can
/// address, is too short for the vectors it announces, announces another
/// number of identifiers than of rows, or does not end with that many
/// identifiers in valid UTF-8.
pub open spec fn decode_body(body: Seq<u8>) -> Option<(IndexModel, Seq<Seq<char>>)> {
    if body.len() < 32 || body.subrange(0, 8) != tag() {
        None
    } else {
        let dimension = count_at(body, 8);
        let rows = count_at(body, 16);
        let ids_at = (24 + 4 * (rows * dimension)) as int;
        if dimension > usize::MAX || ids_at + 8 > body.len() || count_at(body, ids_at) != rows {
            None
        } else {
            match decode_ids(body, ids_at + 8, rows) {
                Some(ids) => Some(
                    (IndexModel { dimension, rows: decode_rows(body, dimension, rows) }, ids),
                ),
                None => None,
            }
        }
    }
}

/// The index and the document identifiers that `blob` holds, or `None` where
/// `blob` is not a blob of this format: where it is too short for a checksum,
/// does not end with the checksum of what stands before it, or what stands
/// before it is not a body of this format.
pub open spec fn decode_blob(blob: Seq<u8>) -> Option<(IndexModel, Seq<Seq<char>>)> {
    if blob.len() < 4 {
        None
    } else {
        let body = blob.take(blob.len() - 4);
        if component_at(blob, blob.len() - 4) != checksum(body) {
            None
        } else {
            decode_body(body)
        }
    }
}

} // verus!
