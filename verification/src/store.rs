//! The document store: records in the order in which they were written,
//! found by key, and searched by similarity.
//!
//! The store holds records for embeddings of one dimension. A key is
//! issued once in the life of a store: the key of a record that has been
//! deleted is retired and never taken again. Similarities are handed to
//! a search as numbers, one for each record; the store decides which
//! records they select and in which order.

use crate::error::RagError;
use crate::ranking::{rank, ranking};
use crate::stamps::{fresh_id, is_random_uuid, is_utc_timestamp, now_rfc3339};
use crate::structures::{Document, DocumentMetaData, DocumentView};
use vstd::prelude::*;

verus! {

/// A record to be written: one that may leave the choice of its key to
/// the store.
#[derive(Debug)]
pub struct NewDocument {
    pub id: Option<String>,
    pub content: String,
    pub metadata: DocumentMetaData,
    pub embedding: Vec<u32>,
}

/// A record with its similarity to a query, in millionths.
#[derive(Debug)]
pub struct ScoredDocument {
    pub document: Document,
    pub score: i64,
}

/// What `ScoredDocument` stands for in contracts.
pub struct ScoredView {
    pub document: DocumentView,
    pub score: i64,
}

impl View for ScoredDocument {
    type V = ScoredView;

    open spec fn view(&self) -> ScoredView {
        ScoredView { document: self.document@, score: self.score }
    }
}

impl DeepView for ScoredDocument {
    type V = ScoredView;

    open spec fn deep_view(&self) -> ScoredView {
        self@
    }
}

/// What `DocumentStore` stands for in contracts: the dimension of its
/// embeddings, its records in the order of writing, and the keys of the
/// records that were deleted, in the order of deletion.
pub struct StoreView {
    pub dimension: nat,
    pub records: Seq<DocumentView>,
    pub retired: Seq<Seq<char>>,
}

/// Some record has the key `id`.
pub open spec fn has_id(records: Seq<DocumentView>, id: Seq<char>) -> bool {
    exists|i: int| 0 <= i < records.len() && #[trigger] records[i].id == id
}

/// No two records have the same key.
pub open spec fn unique_ids(records: Seq<DocumentView>) -> bool {
    forall|i: int, j: int|
        0 <= i < j < records.len() ==> #[trigger] records[i].id != #[trigger] records[j].id
}

/// Every record has an embedding of the store's dimension.
pub open spec fn fits_dimension(records: Seq<DocumentView>, dimension: nat) -> bool {
    forall|i: int| 0 <= i < records.len() ==> (#[trigger] records[i]).embedding.len() == dimension
}

/// Where the record with the key `id` stands, for a key that is there.
pub open spec fn position(records: Seq<DocumentView>, id: Seq<char>) -> int {
    choose|i: int| 0 <= i < records.len() && #[trigger] records[i].id == id
}

/// The record with the key `id`, if there is one.
pub open spec fn lookup(records: Seq<DocumentView>, id: Seq<char>) -> Option<DocumentView> {
    if has_id(records, id) {
        Some(records[position(records, id)])
    } else {
        None
    }
}

/// The records without the one that has the key `id`.
pub open spec fn removed(records: Seq<DocumentView>, id: Seq<char>) -> Seq<DocumentView> {
    if has_id(records, id) {
        records.remove(position(records, id))
    } else {
        records
    }
}

/// The key `id` has been issued: a record has it, or a record that was
/// deleted had it.
pub open spec fn is_issued(store: StoreView, id: Seq<char>) -> bool {
    has_id(store.records, id) || store.retired.contains(id)
}

/// What writing `document` does: a key that has been issued is refused
/// with `DuplicateIdError`, an embedding of another dimension with
/// `ValidationError`, and any other record is put after the records
/// that are there.
pub open spec fn write_result(store: StoreView, document: DocumentView) -> Result<
    StoreView,
    RagError,
> {
    if is_issued(store, document.id) {
        Err(RagError::DuplicateIdError)
    } else if document.embedding.len() != store.dimension {
        Err(RagError::ValidationError)
    } else {
        Ok(
            StoreView {
                dimension: store.dimension,
                records: store.records.push(document),
                retired: store.retired,
            },
        )
    }
}

/// What deleting the key `id` does: the record that has it leaves and
/// the key is retired. Where no record has it, nothing changes.
pub open spec fn delete_result(store: StoreView, id: Seq<char>) -> StoreView {
    if has_id(store.records, id) {
        StoreView {
            dimension: store.dimension,
            records: removed(store.records, id),
            retired: store.retired.push(id),
        }
    } else {
        store
    }
}

/// The records that `picks` selects, in that order, each with its score.
pub open spec fn hits(records: Seq<DocumentView>, scores: Seq<i64>, picks: Seq<usize>) -> Seq<
    ScoredView,
> {
    Seq::new(
        picks.len(),
        |a: int| ScoredView { document: records[picks[a] as int], score: scores[picks[a] as int] },
    )
}

/// What a search returns: the records whose score exceeds `min_score`,
/// the most similar first, records of equal score in the order in which
/// they were written, and no more than `limit` of them.
pub open spec fn search_result(
    records: Seq<DocumentView>,
    scores: Seq<i64>,
    limit: nat,
    min_score: i64,
) -> Seq<ScoredView> {
    hits(records, scores, ranking(scores, min_score, limit))
}

/// Among records with unique keys, the place of a key is the place of
/// any record that has it.
pub proof fn lemma_position(records: Seq<DocumentView>, i: int)
    requires
        unique_ids(records),
        0 <= i < records.len(),
    ensures
        has_id(records, records[i].id),
        position(records, records[i].id) == i,
        lookup(records, records[i].id) == Some(records[i]),
{
    let p = position(records, records[i].id);
    if p < i {
        assert(records[p].id != records[i].id);
    } else if i < p {
        assert(records[i].id != records[p].id);
    }
}

/// A second record under a key is refused, and the first stays as it
/// was: after a record has been written, writing any record with the
/// same key fails with `DuplicateIdError`, and the key still finds the
/// first record.
pub proof fn lemma_duplicate_id(store: StoreView, first: DocumentView, second: DocumentView)
    requires
        unique_ids(store.records),
        first.id == second.id,
        write_result(store, first) is Ok,
    ensures
        write_result(write_result(store, first)->Ok_0, second) == Err::<StoreView, RagError>(
            RagError::DuplicateIdError,
        ),
        lookup(write_result(store, first)->Ok_0.records, first.id) == Some(first),
        unique_ids(write_result(store, first)->Ok_0.records),
{
    let records = store.records;
    let next = records.push(first);
    assert(next[records.len() as int].id == first.id);
    assert forall|i: int, j: int| 0 <= i < j < next.len() implies #[trigger] next[i].id
        != #[trigger] next[j].id by {
        if j == records.len() {
            assert(records[i].id == next[i].id);
        }
    }
    lemma_position(next, records.len() as int);
}

/// Records that have been written are found again: writing one more
/// record changes nothing for the keys that were there.
pub proof fn lemma_written_is_kept(store: StoreView, document: DocumentView, id: Seq<char>)
    requires
        unique_ids(store.records),
        write_result(store, document) is Ok,
        has_id(store.records, id),
    ensures
        lookup(write_result(store, document)->Ok_0.records, id) == lookup(store.records, id),
{
    let records = store.records;
    let next = records.push(document);
    let i = position(records, id);
    assert(next[i] == records[i]);
    assert forall|a: int, b: int| 0 <= a < b < next.len() implies #[trigger] next[a].id
        != #[trigger] next[b].id by {
        if b == records.len() {
            assert(records[a].id == next[a].id);
        }
    }
    lemma_position(next, i);
    lemma_position(records, i);
}

/// A key is issued once in the life of a store: a key that has been
/// issued stays issued through every write and every deletion, and a
/// record that asks for it is refused with `DuplicateIdError`.
pub proof fn lemma_key_issued_once(
    store: StoreView,
    id: Seq<char>,
    written: DocumentView,
    deleted: Seq<char>,
    late: DocumentView,
)
    requires
        unique_ids(store.records),
        is_issued(store, id),
        late.id == id,
    ensures
        write_result(store, late) == Err::<StoreView, RagError>(RagError::DuplicateIdError),
        write_result(store, written) matches Ok(next) ==> is_issued(next, id),
        is_issued(delete_result(store, deleted), id),
{
    let records = store.records;
    if has_id(records, id) {
        let i = position(records, id);
        assert(records.push(written)[i].id == id);
        if has_id(records, deleted) {
            let d = position(records, deleted);
            let after = records.remove(d);
            if deleted == id {
                assert(store.retired.push(deleted)[store.retired.len() as int] == id);
            } else if i < d {
                assert(after[i].id == id);
            } else {
                assert(after[i - 1].id == id);
            }
        }
    } else {
        let k = choose|k: int| 0 <= k < store.retired.len() && store.retired[k] == id;
        assert(store.retired.push(deleted)[k] == id);
    }
}

/// An in-memory document store.
pub struct DocumentStore {
    dimension: usize,
    records: Vec<Document>,
    retired: Vec<String>,
}

impl View for DocumentStore {
    type V = StoreView;

    closed spec fn view(&self) -> StoreView {
        StoreView {
            dimension: self.dimension as nat,
            records: self.records.deep_view(),
            retired: self.retired.deep_view(),
        }
    }
}

impl DocumentStore {
    #[verifier::type_invariant]
    spec fn well_formed(&self) -> bool {
        unique_ids(self.records.deep_view()) && fits_dimension(
            self.records.deep_view(),
            self.dimension as nat,
        )
    }

    /// An empty store for embeddings of the given dimension.
    pub fn new(dimension: usize) -> (r: DocumentStore)
        ensures
            r@ == (StoreView {
                dimension: dimension as nat,
                records: Seq::empty(),
                retired: Seq::empty(),
            }),
    {
        let records: Vec<Document> = Vec::new();
        let retired: Vec<String> = Vec::new();
        assert(records.deep_view() =~= Seq::<DocumentView>::empty());
        assert(retired.deep_view() =~= Seq::<Seq<char>>::empty());
        DocumentStore { dimension, records, retired }
    }

    /// The dimension of the embeddings that the store takes.
    pub fn dimension(&self) -> (r: usize)
        ensures
            r == self@.dimension,
    {
        self.dimension
    }

    /// The number of records.
    pub fn len(&self) -> (r: usize)
        ensures
            r == self@.records.len(),
    {
        self.records.len()
    }

    /// Where the record with the key `id` stands, if there is one.
    fn find(&self, id: &String) -> (r: Option<usize>)
        ensures
            r matches Some(i) ==> i < self@.records.len() && self@.records[i as int].id == id@,
            r is None ==> !has_id(self@.records, id@),
    {
        let mut i: usize = 0;
        while i < self.records.len()
            invariant
                i <= self.records.len(),
                forall|j: int| 0 <= j < i ==> (#[trigger] self@.records[j]).id != id@,
            decreases self.records.len() - i,
        {
            if self.records[i].id == *id {
                return Some(i);
            }
            i = i + 1;
        }
        None
    }

    /// Whether the key `id` is retired.
    fn is_retired(&self, id: &String) -> (r: bool)
        ensures
            r == self@.retired.contains(id@),
    {
        let mut k: usize = 0;
        while k < self.retired.len()
            invariant
                k <= self.retired.len(),
                forall|j: int| 0 <= j < k ==> #[trigger] self@.retired[j] != id@,
            decreases self.retired.len() - k,
        {
            if self.retired[k] == *id {
                assert(self@.retired[k as int] == id@);
                return true;
            }
            k = k + 1;
        }
        false
    }

    /// Writes a record whose key, content, embedding and time of creation
    /// are all given. The outcome is `write_result`: a key that was never
    /// issued is accepted and returned, a key that was issued is refused,
    /// and a refusal leaves the store as it was.
    pub fn insert(&mut self, document: Document) -> (r: Result<String, RagError>)
        ensures
            match write_result(old(self)@, document@) {
                Ok(next) => {
                    &&& final(self)@ == next
                    &&& r matches Ok(id)
                    &&& id@ == document@.id
                },
                Err(e) => final(self)@ == old(self)@ && r == Err::<String, RagError>(e),
            },
            r is Ok ==> has_id(final(self)@.records, document@.id),
            unique_ids(final(self)@.records),
            forall|k: Seq<char>|
                #![trigger is_issued(final(self)@, k)]
                is_issued(old(self)@, k) ==> is_issued(final(self)@, k),
    {
        proof {
            use_type_invariant(&*self);
            let start = self@;
            if write_result(start, document@) is Ok {
                let next = write_result(start, document@)->Ok_0;
                assert forall|k: Seq<char>| is_issued(start, k) implies #[trigger] is_issued(
                    next,
                    k,
                ) by {
                    let late = DocumentView {
                        id: k,
                        content: document@.content,
                        metadata: document@.metadata,
                        embedding: document@.embedding,
                        created_at: document@.created_at,
                    };
                    lemma_key_issued_once(start, k, document@, k, late);
                }
            }
        }
        if self.find(&document.id).is_some() || self.is_retired(&document.id) {
            return Err(RagError::DuplicateIdError);
        }
        if document.embedding.len() != self.dimension {
            return Err(RagError::ValidationError);
        }
        let id = document.id.clone();
        let ghost before = self.records.deep_view();
        let mut records: Vec<Document> = Vec::new();
        assert(records.deep_view() =~= Seq::<DocumentView>::empty());
        core::mem::swap(&mut self.records, &mut records);
        records.push(document);
        proof {
            let after = records.deep_view();
            assert(after =~= before.push(document@));
            assert(after[before.len() as int].id == document@.id);
            assert forall|i: int, j: int| 0 <= i < j < after.len() implies #[trigger] after[i].id
                != #[trigger] after[j].id by {
                if j == before.len() {
                    assert(before[i].id != document@.id);
                } else {
                    assert(before[i].id != before[j].id);
                }
            }
        }
        core::mem::swap(&mut self.records, &mut records);
        Ok(id)
    }

    /// Writes a record, at the present time. A record that brings a key
    /// is written under it, as `insert` does. For a record without a key
    /// the store draws a random one: the record is then written unless
    /// its embedding has the wrong dimension or the key that was drawn
    /// has been issued before, which takes a store that has issued a
    /// random key. A refusal leaves the store as it was.
    pub fn write(&mut self, record: NewDocument) -> (r: Result<String, RagError>)
        ensures
            unique_ids(final(self)@.records),
            forall|k: Seq<char>|
                #![trigger is_issued(final(self)@, k)]
                is_issued(old(self)@, k) ==> is_issued(final(self)@, k),
            r is Err ==> final(self)@ == old(self)@,
            r matches Ok(id) ==> {
                &&& !is_issued(old(self)@, id@)
                &&& has_id(final(self)@.records, id@)
                &&& final(self)@.dimension == old(self)@.dimension
                &&& final(self)@.retired == old(self)@.retired
                &&& final(self)@.records.len() == old(self)@.records.len() + 1
                &&& final(self)@.records.drop_last() == old(self)@.records
                &&& final(self)@.records.last().id == id@
                &&& final(self)@.records.last().content == record.content@
                &&& final(self)@.records.last().metadata == record.metadata@
                &&& final(self)@.records.last().embedding == record.embedding@
                &&& is_utc_timestamp(final(self)@.records.last().created_at)
            },
            record.id matches Some(given) ==> {
                &&& r matches Ok(id) ==> id@ == given@
                &&& r is Ok <==> !is_issued(old(self)@, given@) && record.embedding@.len() == old(
                    self,
                )@.dimension
                &&& is_issued(old(self)@, given@) ==> r == Err::<String, RagError>(
                    RagError::DuplicateIdError,
                )
                &&& r is Err && !is_issued(old(self)@, given@) ==> r == Err::<String, RagError>(
                    RagError::ValidationError,
                )
            },
            record.id is None ==> {
                &&& r matches Ok(id) ==> is_random_uuid(id@)
                &&& record.embedding@.len() != old(self)@.dimension ==> r == Err::<
                    String,
                    RagError,
                >(RagError::ValidationError)
                &&& record.embedding@.len() == old(self)@.dimension ==> r is Ok || r == Err::<
                    String,
                    RagError,
                >(RagError::DuplicateIdError)
                &&& r == Err::<String, RagError>(RagError::DuplicateIdError) ==> exists|
                    id: Seq<char>,
                | is_random_uuid(id) && is_issued(old(self)@, id)
            },
    {
        proof {
            use_type_invariant(&*self);
        }
        let NewDocument { id, content, metadata, embedding } = record;
        let drawn = id.is_none();
        let id = match id {
            Some(given) => given,
            None => {
                if embedding.len() != self.dimension {
                    return Err(RagError::ValidationError);
                }
                fresh_id()
            },
        };
        let created_at = now_rfc3339();
        let document = Document { id, content, metadata, embedding, created_at };
        let ghost before = self@;
        let ghost key = document@.id;
        let outcome = self.insert(document);
        proof {
            if outcome is Ok {
                assert(self@.records.drop_last() =~= before.records);
            }
            if drawn && outcome is Err {
                assert(is_random_uuid(key) && is_issued(before, key));
            }
        }
        outcome
    }

    /// The record with the key `id`, or `None` where there is none.
    pub fn read(&self, id: &str) -> (r: Option<Document>)
        ensures
            match r {
                Some(document) => lookup(self@.records, id@) == Some(document@),
                None => lookup(self@.records, id@) is None,
            },
    {
        proof {
            use_type_invariant(self);
        }
        let key = id.to_string();
        match self.find(&key) {
            Some(i) => {
                proof {
                    lemma_position(self@.records, i as int);
                }
                Some(self.records[i].clone())
            },
            None => None,
        }
    }

    /// All records, in the order in which they were written.
    pub fn list(&self) -> (r: Vec<Document>)
        ensures
            r.deep_view() == self@.records,
            unique_ids(r.deep_view()),
    {
        proof {
            use_type_invariant(self);
        }
        let mut out: Vec<Document> = Vec::new();
        let mut i: usize = 0;
        while i < self.records.len()
            invariant
                i <= self.records.len(),
                out.deep_view() == self@.records.take(i as int),
            decreases self.records.len() - i,
        {
            let ghost before = out.deep_view();
            out.push(self.records[i].clone());
            assert(out.deep_view() =~= before.push(self@.records[i as int]));
            assert(self@.records.take(i + 1) =~= self@.records.take(i as int).push(
                self@.records[i as int],
            ));
            i = i + 1;
        }
        assert(self@.records.take(self.records.len() as int) =~= self@.records);
        out
    }

    /// Removes the record with the key `id` and retires the key: no
    /// record will have it again. Where there is no such record, the
    /// store stays as it is.
    pub fn delete(&mut self, id: &str)
        ensures
            final(self)@ == delete_result(old(self)@, id@),
            !has_id(final(self)@.records, id@),
            unique_ids(final(self)@.records),
            forall|k: Seq<char>|
                #![trigger is_issued(final(self)@, k)]
                is_issued(old(self)@, k) ==> is_issued(final(self)@, k),
    {
        proof {
            use_type_invariant(&*self);
            let start = self@;
            assert forall|k: Seq<char>| is_issued(start, k) implies #[trigger] is_issued(
                delete_result(start, id@),
                k,
            ) by {
                let any = DocumentView {
                    id: k,
                    content: Seq::empty(),
                    metadata: crate::structures::MetaDataView { index: 0, source: Seq::empty() },
                    embedding: Seq::empty(),
                    created_at: Seq::empty(),
                };
                lemma_key_issued_once(start, k, any, id@, any);
            }
        }
        let key = id.to_string();
        let ghost before = self@.records;
        let ghost retired = self@.retired;
        match self.find(&key) {
            Some(i) => {
                proof {
                    lemma_position(before, i as int);
                }
                let mut records: Vec<Document> = Vec::new();
                assert(records.deep_view() =~= Seq::<DocumentView>::empty());
                core::mem::swap(&mut self.records, &mut records);
                records.remove(i);
                proof {
                    let after = records.deep_view();
                    assert(after =~= before.remove(i as int));
                    assert forall|a: int, b: int| 0 <= a < b < after.len() implies #[trigger] after[a].id
                        != #[trigger] after[b].id by {
                        let a0 = if a < i { a } else { a + 1 };
                        let b0 = if b < i { b } else { b + 1 };
                        assert(after[a] == before[a0]);
                        assert(after[b] == before[b0]);
                    }
                    assert forall|a: int| 0 <= a < after.len() implies (#[trigger] after[a]).id
                        != id@ by {
                        let a0 = if a < i { a } else { a + 1 };
                        assert(after[a] == before[a0]);
                        if a0 < i {
                            assert(before[a0].id != before[i as int].id);
                        } else {
                            assert(before[i as int].id != before[a0].id);
                        }
                    }
                    assert forall|a: int| 0 <= a < after.len() implies (#[trigger] after[a]).embedding.len()
                        == self.dimension by {
                        let a0 = if a < i { a } else { a + 1 };
                        assert(after[a] == before[a0]);
                    }
                }
                core::mem::swap(&mut self.records, &mut records);
                let mut keys: Vec<String> = Vec::new();
                core::mem::swap(&mut self.retired, &mut keys);
                keys.push(key);
                assert(keys.deep_view() =~= retired.push(id@));
                core::mem::swap(&mut self.retired, &mut keys);
            },
            None => {},
        }
    }

    /// Searches by similarity. `scores` holds the similarity of each
    /// record to the query, in millionths, in the order of `list`. The
    /// result is `search_result`: the records whose score exceeds
    /// `min_score`, the most similar first, ties in the order of writing,
    /// at most `limit` of them. Scores that are not one for each record
    /// are refused with `ValidationError`.
    pub fn search_similar(&self, scores: &Vec<i64>, limit: usize, min_score: i64) -> (r: Result<
        Vec<ScoredDocument>,
        RagError,
    >)
        ensures
            match r {
                Ok(found) => scores@.len() == self@.records.len() && found.deep_view()
                    == search_result(self@.records, scores@, limit as nat, min_score),
                Err(e) => scores@.len() != self@.records.len() && e == RagError::ValidationError,
            },
    {
        if scores.len() != self.records.len() {
            return Err(RagError::ValidationError);
        }
        let picks = rank(scores, limit, min_score);
        let mut out: Vec<ScoredDocument> = Vec::new();
        let mut a: usize = 0;
        while a < picks.len()
            invariant
                a <= picks.len(),
                scores@.len() == self@.records.len(),
                self@.records.len() == self.records.len(),
                crate::ranking::is_ranking(scores@, min_score, limit as nat, picks@),
                out.deep_view() == hits(self@.records, scores@, picks@).take(a as int),
            decreases picks.len() - a,
        {
            let i = picks[a];
            assert(crate::ranking::qualifies(scores@, min_score, picks@[a as int] as int));
            let ghost before = out.deep_view();
            let found = ScoredDocument { document: self.records[i].clone(), score: scores[i] };
            out.push(found);
            proof {
                let all = hits(self@.records, scores@, picks@);
                assert(out.deep_view() =~= before.push(all[a as int]));
                assert(all.take(a + 1) =~= all.take(a as int).push(all[a as int]));
            }
            a = a + 1;
        }
        proof {
            let all = hits(self@.records, scores@, picks@);
            assert(all.take(picks.len() as int) =~= all);
        }
        Ok(out)
    }
}

} // verus!
