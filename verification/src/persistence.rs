//! Saving an index to a blob and loading it back.

use vstd::prelude::*;
use vstd::bytes::*;
use vstd::utf8::*;
use vstd::slice::{slice_subrange, slice_to_vec};
use vstd::string::StringSliceAdditionalSpecFns;
use crate::error::EngineError;
use crate::format::{
    checksum, checksum_sums, component_at, component_position, count_at, decode_blob, decode_body,
    decode_ids, decode_rows, encode_blob, encode_body, encode_count, encode_id, encode_ids,
    encode_rows, encode_vector, followed_by, id_views, tag, CHECKSUM_MODULUS,
};
use crate::index::{row_views, SimilarityIndex};
use crate::roundtrip::{lemma_decode_encode, lemma_encode_decode};

verus! {

/// The error of `String::from_utf8`.
#[verifier::external_type_specification]
#[verifier::external_body]
pub struct ExFromUtf8Error(std::string::FromUtf8Error);

/// `String::from_utf8` makes a string of the given bytes where they are valid
/// UTF-8, and fails where they are not. The string then holds the characters
/// that the bytes encode.
pub assume_specification[ String::from_utf8 ](bytes: Vec<u8>) -> (result: Result<
    String,
    std::string::FromUtf8Error,
>)
    ensures
        result is Ok <==> valid_utf8(bytes@),
        result matches Ok(text) ==> text@ == decode_utf8(bytes@),
;

/// The Adler-32 checksum of the first `end` bytes of `bytes`.
fn checksum_of(bytes: &Vec<u8>, end: usize) -> (sum: u32)
    requires
        end <= bytes.len(),
    ensures
        sum == checksum(bytes@.take(end as int)),
{
    let mut a: u32 = 1;
    let mut b: u32 = 0;
    let mut i: usize = 0;
    while i < end
        invariant
            i <= end <= bytes.len(),
            a < CHECKSUM_MODULUS,
            b < CHECKSUM_MODULUS,
            checksum_sums(bytes@.take(i as int)) == (a as int, b as int),
        decreases end - i,
    {
        proof {
            let next = bytes@.take(i + 1);
            assert(next.drop_last() =~= bytes@.take(i as int));
        }
        a = (a + bytes[i] as u32) % CHECKSUM_MODULUS;
        b = (b + a) % CHECKSUM_MODULUS;
        i = i + 1;
    }
    b * 65536 + a
}

/// The Adler-32 checksum of `bytes`.
pub fn adler32(bytes: &Vec<u8>) -> (sum: u32)
    ensures
        sum == checksum(bytes@),
{
    assert(bytes@.take(bytes@.len() as int) =~= bytes@);
    checksum_of(bytes, bytes.len())
}

/// Appends the eight bytes of a count to `out`.
fn put_count(out: &mut Vec<u8>, n: usize)
    ensures
        final(out)@ == old(out)@ + encode_count(n as nat),
{
    let mut bytes = u64_to_le_bytes(n as u64);
    out.append(&mut bytes);
}

/// Appends the bytes of a vector to `out`.
fn put_vector(out: &mut Vec<u8>, vector: &Vec<u32>)
    ensures
        final(out)@ == old(out)@ + encode_vector(vector@),
{
    let mut c: usize = 0;
    while c < vector.len()
        invariant
            c <= vector.len(),
            out@ == old(out)@ + encode_vector(vector@.take(c as int)),
        decreases vector.len() - c,
    {
        let mut bytes = u32_to_le_bytes(vector[c]);
        out.append(&mut bytes);
        proof {
            let next = vector@.take(c + 1);
            assert(next.drop_last() =~= vector@.take(c as int));
        }
        c = c + 1;
    }
    assert(vector@.take(c as int) =~= vector@);
}

/// Appends a document identifier to `out`.
fn put_id(out: &mut Vec<u8>, id: &String)
    ensures
        final(out)@ == old(out)@ + encode_id(id@),
        encode_utf8(id@).len() <= usize::MAX,
{
    let bytes = id.as_str().as_bytes();
    put_count(out, bytes.len());
    let ghost start = out@;
    let mut i: usize = 0;
    while i < bytes.len()
        invariant
            i <= bytes.len(),
            out@ == start + bytes@.take(i as int),
        decreases bytes.len() - i,
    {
        out.push(bytes[i]);
        i = i + 1;
    }
}

/// The body of the blob that holds an index and the document identifiers of
/// its rows.
fn body_of(index: &SimilarityIndex, ids: &Vec<String>) -> (body: Vec<u8>)
    ensures
        body@ == encode_body(index@, id_views(ids@)),
        index@.wf(),
        index@.dimension <= usize::MAX,
        index@.rows.len() <= usize::MAX,
        forall|i: int|
            0 <= i < ids@.len() ==> encode_utf8(#[trigger] id_views(ids@)[i]).len() <= usize::MAX,
{
    let mut out: Vec<u8> = Vec::new();
    out.push(0x53u8);
    out.push(0x49u8);
    out.push(0x4du8);
    out.push(0x49u8);
    out.push(0x44u8);
    out.push(0x58u8);
    out.push(0x00u8);
    out.push(0x01u8);
    put_count(&mut out, index.dimension());
    put_count(&mut out, index.row_count());
    let ghost head = out@;
    let ghost rows = index@.rows;
    let mut r: usize = 0;
    while r < index.row_count()
        invariant
            r <= rows.len(),
            rows == index@.rows,
            out@ == head + encode_rows(rows.take(r as int)),
        decreases rows.len() - r,
    {
        match index.row(r) {
            Some(vector) => {
                put_vector(&mut out, vector);
                proof {
                    let next = rows.take(r + 1);
                    assert(next.drop_last() =~= rows.take(r as int));
                }
            },
            None => {},
        }
        r = r + 1;
    }
    assert(rows.take(r as int) =~= rows);
    put_count(&mut out, ids.len());
    let ghost middle = out@;
    let ghost names = id_views(ids@);
    let mut i: usize = 0;
    while i < ids.len()
        invariant
            i <= ids.len(),
            names == id_views(ids@),
            out@ == middle + encode_ids(names.take(i as int)),
            forall|j: int| 0 <= j < i ==> encode_utf8(#[trigger] names[j]).len() <= usize::MAX,
        decreases ids.len() - i,
    {
        put_id(&mut out, &ids[i]);
        proof {
            let next = names.take(i + 1);
            assert(next.drop_last() =~= names.take(i as int));
        }
        i = i + 1;
    }
    assert(names.take(i as int) =~= names);
    out
}

/// Saves an index and the document identifiers of its rows as a blob. Where
/// there is one identifier for each row, the blob loads as what was saved.
pub fn save(index: &SimilarityIndex, ids: &Vec<String>) -> (blob: Vec<u8>)
    ensures
        blob@ == encode_blob(index@, id_views(ids@)),
        ids@.len() == index@.rows.len() ==> decode_blob(blob@) == Some((index@, id_views(ids@))),
{
    let mut out = body_of(index, ids);
    let mut sum = u32_to_le_bytes(adler32(&out));
    out.append(&mut sum);
    proof {
        if ids@.len() == index@.rows.len() {
            lemma_decode_encode(index@, id_views(ids@));
        }
    }
    out
}

/// Reads the count at position `at` of the first `end` bytes of `blob`.
fn read_count(blob: &Vec<u8>, at: usize, end: usize) -> (n: u64)
    requires
        at + 8 <= end <= blob.len(),
    ensures
        n == count_at(blob@.take(end as int), at as int),
{
    assert(blob@.take(end as int).subrange(at as int, at + 8) =~= blob@.subrange(
        at as int,
        at + 8,
    ));
    u64_from_le_bytes(slice_subrange(blob.as_slice(), at, at + 8))
}

/// Reads the vector component at position `at` of the first `end` bytes of
/// `blob`.
fn read_component(blob: &Vec<u8>, at: usize, end: usize) -> (bits: u32)
    requires
        at + 4 <= end <= blob.len(),
    ensures
        bits == component_at(blob@.take(end as int), at as int),
{
    assert(blob@.take(end as int).subrange(at as int, at + 4) =~= blob@.subrange(
        at as int,
        at + 4,
    ));
    u32_from_le_bytes(slice_subrange(blob.as_slice(), at, at + 4))
}

/// Whether `blob` opens with the tag.
fn opens_with_tag(blob: &Vec<u8>) -> (yes: bool)
    requires
        blob.len() >= 8,
    ensures
        yes == (blob@.subrange(0, 8) == tag()),
{
    let yes = blob[0] == 0x53u8 && blob[1] == 0x49u8 && blob[2] == 0x4du8 && blob[3] == 0x49u8
        && blob[4] == 0x44u8 && blob[5] == 0x58u8 && blob[6] == 0x00u8 && blob[7] == 0x01u8;
    if yes {
        assert(blob@.subrange(0, 8) =~= tag());
    }
    yes
}

/// Reads `count` document identifiers that fill the first `end` bytes of
/// `blob` from position `at` on.
fn read_ids(blob: &Vec<u8>, at: usize, count: u64, end: usize) -> (ids: Option<Vec<String>>)
    requires
        at <= end <= blob.len(),
    ensures
        match ids {
            Some(ids) => decode_ids(blob@.take(end as int), at as int, count as nat) == Some(
                id_views(ids@),
            ),
            None => decode_ids(blob@.take(end as int), at as int, count as nat) is None,
        },
{
    let ghost body = blob@.take(end as int);
    let mut ids: Vec<String> = Vec::new();
    let mut pos: usize = at;
    let mut i: u64 = 0;
    while i < count
        invariant
            i <= count,
            pos <= end <= blob.len(),
            body == blob@.take(end as int),
            decode_ids(body, at as int, count as nat) == followed_by(
                id_views(ids@),
                decode_ids(body, pos as int, (count - i) as nat),
            ),
        decreases count - i,
    {
        if end - pos < 8 {
            return None;
        }
        let len: u64 = read_count(blob, pos, end);
        if len > (end - pos - 8) as u64 {
            return None;
        }
        let next: usize = pos + 8 + len as usize;
        assert(body.subrange(pos + 8, next as int) =~= blob@.subrange(pos + 8, next as int));
        let bytes = slice_to_vec(slice_subrange(blob.as_slice(), pos + 8, next));
        match String::from_utf8(bytes) {
            Ok(id) => {
                ids.push(id);
                pos = next;
            },
            Err(_) => {
                return None;
            },
        }
        i = i + 1;
    }
    if pos != end {
        return None;
    }
    Some(ids)
}

/// Reads the `rows` vectors of the given dimension that stand behind the head
/// in the first `end` bytes of `blob`.
fn read_rows(blob: &Vec<u8>, dimension: usize, rows: u64, end: usize) -> (vectors: Vec<Vec<u32>>)
    requires
        24 + 4 * (rows * dimension) <= end <= blob.len(),
    ensures
        row_views(vectors@) == decode_rows(blob@.take(end as int), dimension as nat, rows as nat),
        forall|r: int| 0 <= r < vectors@.len() ==> (#[trigger] vectors@[r])@.len() == dimension,
{
    let ghost body = blob@.take(end as int);
    let mut vectors: Vec<Vec<u32>> = Vec::new();
    let mut at: usize = 24;
    let mut r: u64 = 0;
    while r < rows
        invariant
            r <= rows,
            vectors.len() == r,
            at == component_position(dimension as nat, r as int, 0),
            24 + 4 * (rows * dimension) <= end <= blob.len(),
            body == blob@.take(end as int),
            forall|p: int| 0 <= p < r ==> (#[trigger] vectors@[p])@.len() == dimension,
            forall|p: int, c: int|
                0 <= p < r && 0 <= c < dimension ==> (#[trigger] vectors@[p]@[c]) == component_at(
                    body,
                    component_position(dimension as nat, p, c),
                ),
        decreases rows - r,
    {
        let mut vector: Vec<u32> = Vec::new();
        let mut c: usize = 0;
        while c < dimension
            invariant
                r < rows,
                c <= dimension,
                vector.len() == c,
                at == component_position(dimension as nat, r as int, c as int),
                24 + 4 * (rows * dimension) <= end <= blob.len(),
                body == blob@.take(end as int),
                forall|q: int|
                    0 <= q < c ==> (#[trigger] vector@[q]) == component_at(
                        body,
                        component_position(dimension as nat, r as int, q),
                    ),
            decreases dimension - c,
        {
            assert(r * dimension + c + 1 <= rows * dimension) by (nonlinear_arith)
                requires
                    r < rows,
                    c < dimension,
            ;
            vector.push(read_component(blob, at, end));
            at = at + 4;
            c = c + 1;
        }
        assert(component_position(dimension as nat, r as int, dimension as int)
            == component_position(dimension as nat, r + 1, 0)) by (nonlinear_arith);
        vectors.push(vector);
        r = r + 1;
    }
    proof {
        let got = row_views(vectors@);
        let want = decode_rows(body, dimension as nat, rows as nat);
        assert forall|p: int| 0 <= p < rows implies got[p] =~= want[p] by {}
    }
    vectors
}

/// Reads the index and the document identifiers that the first `end` bytes of
/// `blob` hold as the body of a blob.
fn read_body(blob: &Vec<u8>, end: usize) -> (result: Option<(SimilarityIndex, Vec<String>)>)
    requires
        end <= blob.len(),
    ensures
        match result {
            Some((index, ids)) => decode_body(blob@.take(end as int)) == Some(
                (index@, id_views(ids@)),
            ),
            None => decode_body(blob@.take(end as int)) is None,
        },
{
    if end < 32 {
        return None;
    }
    assert(blob@.take(end as int).subrange(0, 8) =~= blob@.subrange(0, 8));
    if !opens_with_tag(blob) {
        return None;
    }
    let dimension: u64 = read_count(blob, 8, end);
    let rows: u64 = read_count(blob, 16, end);
    if dimension > usize::MAX as u64 {
        return None;
    }
    let room: u64 = (end - 32) as u64;
    let cells: u64 = match rows.checked_mul(dimension) {
        Some(cells) => cells,
        None => {
            return None;
        },
    };
    if cells > room / 4 {
        return None;
    }
    let ids_at: usize = 24 + 4 * (cells as usize);
    if read_count(blob, ids_at, end) != rows {
        return None;
    }
    let ids = match read_ids(blob, ids_at + 8, rows, end) {
        Some(ids) => ids,
        None => {
            return None;
        },
    };
    let vectors = read_rows(blob, dimension as usize, rows, end);
    let index = SimilarityIndex::from_rows(dimension as usize, vectors);
    Some((index, ids))
}

/// Loads the index and the document identifiers that a blob holds. Fails with
/// `CorruptData` where `blob` is not a blob of this format. What is loaded has
/// one identifier for each row, and saved again it is `blob`.
pub fn load(blob: &Vec<u8>) -> (result: Result<(SimilarityIndex, Vec<String>), EngineError>)
    ensures
        match result {
            Ok((index, ids)) => {
                &&& decode_blob(blob@) == Some((index@, id_views(ids@)))
                &&& ids@.len() == index@.rows.len()
                &&& encode_blob(index@, id_views(ids@)) == blob@
            },
            Err(e) => e == EngineError::CorruptData && decode_blob(blob@) is None,
        },
{
    if blob.len() < 4 {
        return Err(EngineError::CorruptData);
    }
    let end: usize = blob.len() - 4;
    assert(blob@.take(blob@.len() as int) =~= blob@);
    if read_component(blob, end, blob.len()) != checksum_of(blob, end) {
        return Err(EngineError::CorruptData);
    }
    match read_body(blob, end) {
        Some((index, ids)) => {
            proof {
                lemma_encode_decode(blob@, index@, id_views(ids@));
            }
            Ok((index, ids))
        },
        None => Err(EngineError::CorruptData),
    }
}

} // verus!
