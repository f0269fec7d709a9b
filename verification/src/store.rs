//! The records that an index is built from.

use vstd::prelude::*;
use crate::error::EngineError;
use crate::index::{built, row_views, IndexModel, SimilarityIndex};
use crate::format::id_views;

verus! {

/// A document as the index needs it: its identifier and its embedding vector.
pub struct VectorRecord {
    pub id: String,
    pub vector: Vec<u32>,
}

/// What a record holds.
pub struct RecordModel {
    pub id: Seq<char>,
    pub vector: Seq<u32>,
}

impl View for VectorRecord {
    type V = RecordModel;

    open spec fn view(&self) -> RecordModel {
        RecordModel { id: self.id@, vector: self.vector@ }
    }
}

/// The identifiers of records, in the order of the records.
pub open spec fn ids_of(records: Seq<RecordModel>) -> Seq<Seq<char>> {
    Seq::new(records.len(), |i: int| records[i].id)
}

/// The vectors of records, in the order of the records.
pub open spec fn vectors_of(records: Seq<RecordModel>) -> Seq<Seq<u32>> {
    Seq::new(records.len(), |i: int| records[i].vector)
}

/// The records of the documents that an index is to be built from, in the
/// order in which they were added. Records are added at the end and never
/// changed or taken out.
pub struct RecordStore {
    records: Vec<VectorRecord>,
}

impl View for RecordStore {
    type V = Seq<RecordModel>;

    closed spec fn view(&self) -> Seq<RecordModel> {
        Seq::new(self.records@.len(), |i: int| self.records@[i]@)
    }
}

impl RecordStore {
    /// A store that holds no record.
    pub fn new() -> (store: RecordStore)
        ensures
            store@ == Seq::<RecordModel>::empty(),
    {
        RecordStore { records: Vec::new() }
    }

    /// Adds a record behind those that the store holds.
    pub fn push(&mut self, record: VectorRecord)
        ensures
            final(self)@ == old(self)@.push(record@),
    {
        self.records.push(record);
    }

    /// The number of records.
    pub fn len(&self) -> (n: usize)
        ensures
            n == self@.len(),
    {
        self.records.len()
    }

    /// Builds the index over the vectors of the records, and hands out with it
    /// the identifiers of the records: row ids are the positions of the
    /// records, and the identifier of a row stands at the position of its row
    /// id. Fails as building an index from the vectors fails.
    pub fn build_index(self) -> (result: Result<(SimilarityIndex, Vec<String>), EngineError>)
        ensures
            match result {
                Ok((index, ids)) => built(vectors_of(self@)) == Ok::<IndexModel, EngineError>(
                    index@,
                ) && id_views(ids@) == ids_of(self@),
                Err(e) => built(vectors_of(self@)) == Err::<IndexModel, EngineError>(e),
            },
    {
        let ghost records = self.records@;
        let mut ids: Vec<String> = Vec::new();
        let mut vectors: Vec<Vec<u32>> = Vec::new();
        for record in it: self.records
            invariant
                it.seq() == records,
                ids@.len() == it.index(),
                vectors@.len() == it.index(),
                forall|i: int| 0 <= i < it.index() ==> (#[trigger] ids@[i])@ == records[i].id@,
                forall|i: int|
                    0 <= i < it.index() ==> (#[trigger] vectors@[i])@ == records[i].vector@,
        {
            ids.push(record.id);
            vectors.push(record.vector);
        }
        assert(row_views(vectors@) =~= vectors_of(self@));
        assert(id_views(ids@) =~= ids_of(self@));
        match SimilarityIndex::build(vectors) {
            Ok(index) => Ok((index, ids)),
            Err(e) => Err(e),
        }
    }
}

} // verus!
