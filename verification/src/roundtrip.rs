//! Saving and loading are inverse to each other.

use vstd::prelude::*;
use vstd::bytes::*;
use vstd::utf8::*;
use crate::format::{
    checksum, component_at, component_position, count_at, decode_blob, decode_body, decode_ids,
    decode_rows, encode_blob, encode_body, encode_count, encode_id, encode_ids, encode_rows,
    encode_vector, tag,
};
use crate::index::IndexModel;

verus! {

/// An index and document identifiers that a blob can hold: the rows have the
/// dimension of the index, there is one identifier for each row, and every
/// count and length fits the eight bytes that the format gives it.
pub open spec fn storable(index: IndexModel, ids: Seq<Seq<char>>) -> bool {
    &&& index.wf()
    &&& index.dimension <= usize::MAX
    &&& index.rows.len() <= u64::MAX
    &&& ids.len() == index.rows.len()
    &&& forall|i: int| 0 <= i < ids.len() ==> encode_utf8(#[trigger] ids[i]).len() <= u64::MAX
}

/// A count that fits eight bytes is read back as it was written.
proof fn lemma_count_round_trip(n: nat, blob: Seq<u8>, at: int)
    requires
        n <= u64::MAX,
        0 <= at,
        at + 8 <= blob.len(),
        blob.subrange(at, at + 8) == encode_count(n),
    ensures
        count_at(blob, at) == n,
{
    lemma_auto_spec_u64_to_from_le_bytes();
}

/// A vector takes four bytes for each component.
proof fn lemma_vector_len(vector: Seq<u32>)
    ensures
        encode_vector(vector).len() == 4 * vector.len(),
    decreases vector.len(),
{
    lemma_auto_spec_u32_to_from_le_bytes();
    if vector.len() > 0 {
        lemma_vector_len(vector.drop_last());
    }
}

/// Component `c` of an encoded vector stands at position `4 * c`.
proof fn lemma_vector_component(vector: Seq<u32>, c: int)
    requires
        0 <= c < vector.len(),
    ensures
        encode_vector(vector).subrange(4 * c, 4 * c + 4) == spec_u32_to_le_bytes(vector[c]),
    decreases vector.len(),
{
    lemma_auto_spec_u32_to_from_le_bytes();
    let front = encode_vector(vector.drop_last());
    let back = spec_u32_to_le_bytes(vector.last());
    lemma_vector_len(vector.drop_last());
    if c == vector.len() - 1 {
        assert((front + back).subrange(4 * c, 4 * c + 4) =~= back);
    } else {
        lemma_vector_component(vector.drop_last(), c);
        assert((front + back).subrange(4 * c, 4 * c + 4) =~= front.subrange(4 * c, 4 * c + 4));
    }
}

/// Rows of one dimension take four bytes for each component of each row.
proof fn lemma_rows_len(rows: Seq<Seq<u32>>, dimension: nat)
    requires
        forall|r: int| 0 <= r < rows.len() ==> (#[trigger] rows[r]).len() == dimension,
    ensures
        encode_rows(rows).len() == 4 * (rows.len() * dimension),
    decreases rows.len(),
{
    if rows.len() > 0 {
        lemma_rows_len(rows.drop_last(), dimension);
        lemma_vector_len(rows.last());
        assert(4 * ((rows.len() - 1) * dimension) + 4 * dimension == 4 * (rows.len() * dimension))
            by (nonlinear_arith);
    } else {
        assert(rows.len() * dimension == 0) by (nonlinear_arith)
            requires
                rows.len() == 0,
        ;
    }
}

/// Component `c` of row `r` stands in the encoded rows at position
/// `4 * (r * dimension + c)`.
proof fn lemma_rows_component(rows: Seq<Seq<u32>>, dimension: nat, r: int, c: int)
    requires
        forall|p: int| 0 <= p < rows.len() ==> (#[trigger] rows[p]).len() == dimension,
        0 <= r < rows.len(),
        0 <= c < dimension,
    ensures
        4 * (r * dimension + c) + 4 <= encode_rows(rows).len(),
        encode_rows(rows).subrange(4 * (r * dimension + c), 4 * (r * dimension + c) + 4)
            == spec_u32_to_le_bytes(rows[r][c]),
    decreases rows.len(),
{
    let front = encode_rows(rows.drop_last());
    let back = encode_vector(rows.last());
    let at = 4 * (r * dimension + c);
    lemma_rows_len(rows.drop_last(), dimension);
    lemma_rows_len(rows, dimension);
    lemma_vector_len(rows.last());
    assert(r * dimension + c + 1 <= rows.len() * dimension) by (nonlinear_arith)
        requires
            0 <= r < rows.len(),
            0 <= c < dimension,
    ;
    if r == rows.len() - 1 {
        lemma_vector_component(rows.last(), c);
        assert(front.len() == 4 * (r * dimension));
        assert(at == front.len() + 4 * c) by (nonlinear_arith)
            requires
                at == 4 * (r * dimension + c),
                front.len() == 4 * (r * dimension),
        ;
        assert((front + back).subrange(at, at + 4) =~= back.subrange(4 * c, 4 * c + 4));
    } else {
        lemma_rows_component(rows.drop_last(), dimension, r, c);
        assert((front + back).subrange(at, at + 4) =~= front.subrange(at, at + 4));
    }
}

/// Encoded identifiers are the first of them followed by the others.
proof fn lemma_ids_front(ids: Seq<Seq<char>>)
    requires
        ids.len() > 0,
    ensures
        encode_ids(ids) == encode_id(ids[0]) + encode_ids(ids.drop_first()),
    decreases ids.len(),
{
    if ids.len() == 1 {
        assert(ids.drop_last() =~= Seq::empty());
        assert(ids.drop_first() =~= Seq::empty());
        assert(encode_ids(ids) =~= encode_id(ids[0]) + encode_ids(ids.drop_first()));
    } else {
        lemma_ids_front(ids.drop_last());
        assert(ids.drop_last().drop_first() =~= ids.drop_first().drop_last());
        assert(ids.drop_first().last() == ids.last());
        assert(ids.drop_last()[0] == ids[0]);
        assert(encode_ids(ids) =~= encode_id(ids[0]) + encode_ids(ids.drop_first()));
    }
}

/// Identifiers that fill a blob from position `at` to its end are read back as
/// they were written.
proof fn lemma_ids_round_trip(blob: Seq<u8>, at: int, ids: Seq<Seq<char>>)
    requires
        0 <= at <= blob.len(),
        blob.subrange(at, blob.len() as int) == encode_ids(ids),
        forall|i: int| 0 <= i < ids.len() ==> encode_utf8(#[trigger] ids[i]).len() <= u64::MAX,
    ensures
        decode_ids(blob, at, ids.len()) == Some(ids),
    decreases ids.len(),
{
    lemma_auto_spec_u64_to_from_le_bytes();
    if ids.len() == 0 {
        assert(ids =~= Seq::empty());
        assert(blob.subrange(at, blob.len() as int).len() == 0);
    } else {
        lemma_ids_front(ids);
        let text = encode_utf8(ids[0]);
        let tail = blob.subrange(at, blob.len() as int);
        let others = ids.drop_first();
        assert(tail == encode_count(text.len()) + text + encode_ids(others));
        assert(tail.len() >= 8 + text.len());
        assert(blob.subrange(at, at + 8) =~= encode_count(text.len())) by {
            assert(blob.subrange(at, at + 8) =~= tail.subrange(0, 8));
        }
        lemma_count_round_trip(text.len(), blob, at);
        let end = at + 8 + text.len();
        assert(blob.subrange(at + 8, end) =~= text) by {
            assert(blob.subrange(at + 8, end) =~= tail.subrange(8, 8 + text.len() as int));
        }
        assert(blob.subrange(end, blob.len() as int) =~= encode_ids(others)) by {
            assert(blob.subrange(end, blob.len() as int) =~= tail.subrange(
                8 + text.len() as int,
                tail.len() as int,
            ));
        }
        encode_utf8_valid_utf8(ids[0]);
        encode_utf8_decode_utf8(ids[0]);
        assert forall|i: int| 0 <= i < others.len() implies encode_utf8(#[trigger] others[i]).len()
            <= u64::MAX by {
            assert(others[i] == ids[i + 1]);
        }
        lemma_ids_round_trip(blob, end, others);
        assert(seq![ids[0]] + others =~= ids);
        assert(count_at(blob, at) == text.len());
        assert(valid_utf8(blob.subrange(at + 8, end)));
        assert(decode_utf8(blob.subrange(at + 8, end)) == ids[0]);
        assert(decode_ids(blob, end, (ids.len() - 1) as nat) == Some(others));
    }
}

/// The body of a blob decodes to what it was made of.
proof fn lemma_body_round_trip(index: IndexModel, ids: Seq<Seq<char>>)
    requires
        storable(index, ids),
    ensures
        decode_body(encode_body(index, ids)) == Some((index, ids)),
{
    lemma_auto_spec_u64_to_from_le_bytes();
    lemma_auto_spec_u32_to_from_le_bytes();
    let blob = encode_body(index, ids);
    let dimension = index.dimension;
    let rows = index.rows.len();
    let payload = encode_rows(index.rows);
    lemma_rows_len(index.rows, dimension);
    let ids_at: int = (24 + 4 * (rows * dimension)) as int;
    assert(blob.len() == 32 + payload.len() + encode_ids(ids).len());
    assert(blob.subrange(0, 8) =~= tag());
    assert(blob.subrange(8, 16) =~= encode_count(dimension));
    assert(blob.subrange(16, 24) =~= encode_count(rows));
    assert(blob.subrange(ids_at, ids_at + 8) =~= encode_count(ids.len()));
    assert(blob.subrange(ids_at + 8, blob.len() as int) =~= encode_ids(ids));
    lemma_count_round_trip(dimension, blob, 8);
    lemma_count_round_trip(rows, blob, 16);
    lemma_count_round_trip(rows, blob, ids_at);
    lemma_ids_round_trip(blob, ids_at + 8, ids);
    let read = decode_rows(blob, dimension, rows);
    assert forall|r: int| 0 <= r < rows implies read[r] == index.rows[r] by {
        assert forall|c: int| 0 <= c < dimension implies read[r][c] == index.rows[r][c] by {
            lemma_rows_component(index.rows, dimension, r, c);
            let at = 4 * (r * dimension + c);
            assert(blob.subrange(24 + at, 24 + at + 4) =~= payload.subrange(at, at + 4));
        }
        assert(read[r] =~= index.rows[r]);
    }
    assert(read =~= index.rows);
}

/// A vector whose components stand in `blob` from position `at` on encodes to
/// the bytes that stand there.
proof fn lemma_vector_canonical(blob: Seq<u8>, at: int, vector: Seq<u32>)
    requires
        0 <= at,
        at + 4 * vector.len() <= blob.len(),
        forall|c: int| 0 <= c < vector.len() ==> #[trigger] vector[c] == component_at(blob, at + 4 * c),
    ensures
        encode_vector(vector) == blob.subrange(at, at + 4 * vector.len()),
    decreases vector.len(),
{
    lemma_auto_spec_u32_to_from_le_bytes();
    if vector.len() == 0 {
        assert(encode_vector(vector) =~= blob.subrange(at, at + 4 * vector.len()));
    } else {
        let front = vector.drop_last();
        let last = vector.len() - 1;
        assert forall|c: int| 0 <= c < front.len() implies #[trigger] front[c] == component_at(
            blob,
            at + 4 * c,
        ) by {
            assert(front[c] == vector[c]);
        }
        lemma_vector_canonical(blob, at, front);
        let word = blob.subrange(at + 4 * last, at + 4 * last + 4);
        assert(vector.last() == component_at(blob, at + 4 * last));
        assert(spec_u32_to_le_bytes(vector.last()) == word);
        assert(blob.subrange(at, at + 4 * last) + word =~= blob.subrange(at, at + 4 * vector.len()));
    }
}

/// The vectors read from a blob encode to the bytes they were read from.
proof fn lemma_rows_canonical(blob: Seq<u8>, dimension: nat, rows: nat)
    requires
        24 + 4 * (rows * dimension) <= blob.len(),
    ensures
        encode_rows(decode_rows(blob, dimension, rows)) == blob.subrange(
            24,
            (24 + 4 * (rows * dimension)) as int,
        ),
    decreases rows,
{
    let read = decode_rows(blob, dimension, rows);
    if rows == 0 {
        assert(rows * dimension == 0) by (nonlinear_arith)
            requires
                rows == 0,
        ;
        assert(encode_rows(read) =~= blob.subrange(24, (24 + 4 * (rows * dimension)) as int));
    } else {
        let fewer = (rows - 1) as nat;
        assert(fewer * dimension + dimension == rows * dimension) by (nonlinear_arith)
            requires
                fewer + 1 == rows,
        ;
        assert(fewer * dimension >= 0) by (nonlinear_arith);
        lemma_rows_canonical(blob, dimension, fewer);
        assert(read.drop_last() =~= decode_rows(blob, dimension, fewer));
        let at: int = (24 + 4 * (fewer * dimension)) as int;
        let last = read.last();
        assert forall|c: int| 0 <= c < last.len() implies #[trigger] last[c] == component_at(
            blob,
            at + 4 * c,
        ) by {
            assert(component_position(dimension, fewer as int, c) == at + 4 * c) by (nonlinear_arith)
                requires
                    at == 24 + 4 * (fewer * dimension),
                    component_position(dimension, fewer as int, c) == 24 + 4 * (fewer * dimension
                        + c),
            ;
        }
        lemma_vector_canonical(blob, at, last);
        assert(blob.subrange(24, at) + blob.subrange(at, at + 4 * dimension) =~= blob.subrange(
            24,
            (24 + 4 * (rows * dimension)) as int,
        ));
    }
}

/// The identifiers read from a blob are as many as were asked for, each with a
/// UTF-8 form whose length fits eight bytes, and encode to the bytes they were
/// read from.
proof fn lemma_ids_canonical(blob: Seq<u8>, at: int, count: nat, ids: Seq<Seq<char>>)
    requires
        0 <= at <= blob.len(),
        decode_ids(blob, at, count) == Some(ids),
    ensures
        ids.len() == count,
        forall|i: int| 0 <= i < ids.len() ==> encode_utf8(#[trigger] ids[i]).len() <= u64::MAX,
        encode_ids(ids) == blob.subrange(at, blob.len() as int),
    decreases count,
{
    lemma_auto_spec_u64_to_from_le_bytes();
    if count == 0 {
        assert(encode_ids(ids) =~= blob.subrange(at, blob.len() as int));
    } else {
        let len = count_at(blob, at);
        let end = at + 8 + len;
        let text = blob.subrange(at + 8, end);
        let others = decode_ids(blob, end, (count - 1) as nat)->0;
        assert(ids == seq![decode_utf8(text)] + others);
        lemma_ids_canonical(blob, end, (count - 1) as nat, others);
        decode_utf8_encode_utf8(text);
        assert(ids.drop_first() =~= others);
        assert(ids[0] == decode_utf8(text));
        lemma_ids_front(ids);
        assert(encode_count(len) == blob.subrange(at, at + 8));
        assert forall|i: int| 0 <= i < ids.len() implies encode_utf8(#[trigger] ids[i]).len()
            <= u64::MAX by {
            if i > 0 {
                assert(ids[i] == others[i - 1]);
            }
        }
        assert(blob.subrange(at, at + 8) + text + blob.subrange(end, blob.len() as int)
            =~= blob.subrange(at, blob.len() as int));
    }
}

/// What a body decodes to can be stored, and has that very body.
proof fn lemma_body_canonical(blob: Seq<u8>, index: IndexModel, ids: Seq<Seq<char>>)
    requires
        decode_body(blob) == Some((index, ids)),
    ensures
        storable(index, ids),
        encode_body(index, ids) == blob,
{
    lemma_auto_spec_u64_to_from_le_bytes();
    let dimension = count_at(blob, 8);
    let rows = count_at(blob, 16);
    let ids_at: int = (24 + 4 * (rows * dimension)) as int;
    assert(rows * dimension >= 0) by (nonlinear_arith);
    lemma_rows_canonical(blob, dimension, rows);
    lemma_ids_canonical(blob, ids_at + 8, rows, ids);
    assert(index.rows == decode_rows(blob, dimension, rows));
    assert(encode_count(dimension) == blob.subrange(8, 16));
    assert(encode_count(rows) == blob.subrange(16, 24));
    assert(encode_count(ids.len()) == blob.subrange(ids_at, ids_at + 8));
    assert(blob.subrange(0, 8) + blob.subrange(8, 16) + blob.subrange(16, 24) + blob.subrange(
        24,
        ids_at,
    ) + blob.subrange(ids_at, ids_at + 8) + blob.subrange(ids_at + 8, blob.len() as int) =~= blob);
}

/// Saving and loading give back what was saved: the blob that holds an index
/// and the identifiers of its rows decodes to that index, with every vector at
/// its row id, and to those identifiers.
pub proof fn lemma_decode_encode(index: IndexModel, ids: Seq<Seq<char>>)
    requires
        storable(index, ids),
    ensures
        decode_blob(encode_blob(index, ids)) == Some((index, ids)),
{
    lemma_auto_spec_u32_to_from_le_bytes();
    let body = encode_body(index, ids);
    let blob = encode_blob(index, ids);
    lemma_body_round_trip(index, ids);
    assert(blob.take(blob.len() - 4) =~= body);
    assert(blob.subrange(blob.len() - 4, blob.len() - 4 + 4) =~= spec_u32_to_le_bytes(
        checksum(body),
    ));
}

/// A blob holds one thing only, in one way: what a blob decodes to can be
/// stored, and stored it is that very blob.
pub proof fn lemma_encode_decode(blob: Seq<u8>, index: IndexModel, ids: Seq<Seq<char>>)
    requires
        decode_blob(blob) == Some((index, ids)),
    ensures
        storable(index, ids),
        encode_blob(index, ids) == blob,
{
    lemma_auto_spec_u32_to_from_le_bytes();
    let body = blob.take(blob.len() - 4);
    lemma_body_canonical(body, index, ids);
    assert(body + blob.subrange(blob.len() - 4, blob.len() - 4 + 4) =~= blob);
}

} // verus!
