//! The index: the documents that searches run against, written by a single
//! writer and made visible at commits.
//!
//! Added documents wait in a pending batch. A commit makes the whole batch
//! visible at once: for each path the index then holds the document that
//! was added last, in the place where the path first appeared. Whether the
//! batch reached durable storage is reported to `commit` by the caller; a
//! failed write breaks the writer for good.

use crate::document::{doc_models, shared_models, Document, DocumentModel, Schema, Snapshot};
use crate::sharing::share;
use std::sync::Arc;
use vstd::prelude::*;

verus! {

/// Some document of `docs` is about `path`.
pub open spec fn holds(docs: Seq<DocumentModel>, path: Seq<char>) -> bool {
    exists|i: int| 0 <= i < docs.len() && (#[trigger] docs[i]).path == path
}

/// The position of a document about `path`, where there is one.
pub open spec fn slot(docs: Seq<DocumentModel>, path: Seq<char>) -> int {
    choose|i: int| 0 <= i < docs.len() && (#[trigger] docs[i]).path == path
}

/// No two documents are about the same path.
pub open spec fn unique_paths(docs: Seq<DocumentModel>) -> bool {
    forall|i: int, j: int|
        0 <= i < j < docs.len() ==> (#[trigger] docs[i]).path != (#[trigger] docs[j]).path
}

/// `docs` with `doc` put in: in place of the document about the same path,
/// or at the end.
pub open spec fn upsert(docs: Seq<DocumentModel>, doc: DocumentModel) -> Seq<DocumentModel> {
    if holds(docs, doc.path) {
        docs.update(slot(docs, doc.path), doc)
    } else {
        docs.push(doc)
    }
}

/// `docs` with a batch put in, first to last.
pub open spec fn merge(docs: Seq<DocumentModel>, batch: Seq<DocumentModel>) -> Seq<DocumentModel>
    decreases batch.len(),
{
    if batch.len() == 0 {
        docs
    } else {
        merge(upsert(docs, batch[0]), batch.drop_first())
    }
}

/// With unique paths, the slot of a path is the one place it occurs.
pub proof fn lemma_slot_unique(docs: Seq<DocumentModel>, i: int)
    requires
        unique_paths(docs),
        0 <= i < docs.len(),
    ensures
        holds(docs, docs[i].path),
        slot(docs, docs[i].path) == i,
{
}

/// Putting a document in keeps paths unique, leaves the documents about
/// other paths where they are, and makes the new document the one held for
/// its path.
pub proof fn lemma_upsert(docs: Seq<DocumentModel>, doc: DocumentModel)
    requires
        unique_paths(docs),
    ensures
        unique_paths(upsert(docs, doc)),
        holds(upsert(docs, doc), doc.path),
        upsert(docs, doc)[slot(upsert(docs, doc), doc.path)] == doc,
        forall|i: int|
            0 <= i < docs.len() && (#[trigger] docs[i]).path != doc.path ==> upsert(docs, doc)[i]
                == docs[i],
        docs.len() <= upsert(docs, doc).len() <= docs.len() + 1,
{
    let after = upsert(docs, doc);
    if holds(docs, doc.path) {
        let s = slot(docs, doc.path);
        assert forall|a: int, b: int| 0 <= a < b < after.len() implies (#[trigger] after[a]).path
            != (#[trigger] after[b]).path by {}
        lemma_slot_unique(after, s);
    } else {
        let n = docs.len() as int;
        assert forall|a: int, b: int| 0 <= a < b < after.len() implies (#[trigger] after[a]).path
            != (#[trigger] after[b]).path by {}
        lemma_slot_unique(after, n);
    }
}

/// Merging a batch keeps paths unique.
pub proof fn lemma_merge_unique(docs: Seq<DocumentModel>, batch: Seq<DocumentModel>)
    requires
        unique_paths(docs),
    ensures
        unique_paths(merge(docs, batch)),
    decreases batch.len(),
{
    if batch.len() > 0 {
        lemma_upsert(docs, batch[0]);
        lemma_merge_unique(upsert(docs, batch[0]), batch.drop_first());
    }
}

/// Merging a batch and then one more document is merging the longer
/// batch.
pub proof fn lemma_merge_push(docs: Seq<DocumentModel>, batch: Seq<DocumentModel>, doc: DocumentModel)
    ensures
        merge(docs, batch.push(doc)) == upsert(merge(docs, batch), doc),
    decreases batch.len(),
{
    let longer = batch.push(doc);
    if batch.len() == 0 {
        assert(merge(upsert(docs, doc), longer.drop_first()) == upsert(docs, doc));
    } else {
        assert(longer.drop_first() =~= batch.drop_first().push(doc));
        lemma_merge_push(upsert(docs, batch[0]), batch.drop_first(), doc);
    }
}

/// Merging two batches one after the other is merging them joined.
pub proof fn lemma_merge_append(
    docs: Seq<DocumentModel>,
    first: Seq<DocumentModel>,
    second: Seq<DocumentModel>,
)
    ensures
        merge(merge(docs, first), second) == merge(docs, first + second),
    decreases second.len(),
{
    if second.len() > 0 {
        let earlier = second.drop_last();
        let last = second.last();
        assert(second =~= earlier.push(last));
        lemma_merge_append(docs, first, earlier);
        lemma_merge_push(merge(docs, first), earlier, last);
        lemma_merge_push(docs, first + earlier, last);
    }
}

/// A failure of the index writer. It is fatal to the writer.
#[derive(Debug, Clone, Copy, PartialEq, Eq, Structural)]
pub enum WriterError {
    /// The batch could not be written to storage.
    Storage,
    /// The writer failed earlier and accepts nothing more.
    Broken,
}

/// The index as plain values.
pub struct IndexModel {
    /// What readers see after a refresh.
    pub committed: Seq<DocumentModel>,
    /// Added and not yet visible.
    pub pending: Seq<DocumentModel>,
    /// The writer has failed.
    pub broken: bool,
}

/// The documents, with their single writer.
///
/// What is committed is an immutable snapshot that readers share. A commit
/// builds the next snapshot beside it and then puts it in its place, so a
/// reader's snapshot never changes under it.
pub struct Index {
    schema: Schema,
    committed: Snapshot,
    pending: Vec<Document>,
    broken: bool,
}

/// The position of the document about `path` in `docs`.
fn find_slot(docs: &Vec<Arc<Document>>, path: &String) -> (found: Option<usize>)
    requires
        unique_paths(shared_models(docs@)),
    ensures
        found is Some == holds(shared_models(docs@), path@),
        found matches Some(i) ==> i == slot(shared_models(docs@), path@),
{
    let mut i: usize = 0;
    while i < docs.len()
        invariant
            i <= docs@.len(),
            unique_paths(shared_models(docs@)),
            forall|k: int| 0 <= k < i ==> (#[trigger] shared_models(docs@)[k]).path != path@,
        decreases docs@.len() - i,
    {
        if docs[i].path == *path {
            proof {
                lemma_slot_unique(shared_models(docs@), i as int);
            }
            return Some(i);
        }
        i = i + 1;
    }
    None
}

/// Pointers to the documents of `docs`, in a list of its own.
fn share_all(docs: &Vec<Arc<Document>>) -> (shared: Vec<Arc<Document>>)
    ensures
        shared_models(shared@) == shared_models(docs@),
{
    let mut shared: Vec<Arc<Document>> = Vec::new();
    let mut i: usize = 0;
    while i < docs.len()
        invariant
            i <= docs@.len(),
            shared@.len() == i,
            forall|k: int| 0 <= k < i ==> (#[trigger] shared@[k])@ == docs@[k]@,
        decreases docs@.len() - i,
    {
        shared.push(share(&docs[i]));
        i = i + 1;
    }
    shared
}

impl Index {
    /// The index as plain values.
    pub closed spec fn view(&self) -> IndexModel {
        IndexModel {
            committed: shared_models(self.committed@),
            pending: doc_models(self.pending@),
            broken: self.broken,
        }
    }

    /// The schema that the index was made with.
    pub closed spec fn spec_schema(&self) -> Schema {
        self.schema
    }

    /// The invariant of the index: no two committed documents are about
    /// the same path.
    pub open spec fn wf(&self) -> bool {
        unique_paths(self@.committed)
    }

    /// An empty index.
    pub fn new(schema: Schema) -> (index: Self)
        ensures
            index.wf(),
            index.spec_schema() == schema,
            index@ == (IndexModel { committed: Seq::empty(), pending: Seq::empty(), broken: false }),
    {
        let index = Index {
            schema,
            committed: Arc::new(Vec::new()),
            pending: Vec::new(),
            broken: false,
        };
        proof {
            assert(index@.committed =~= Seq::<DocumentModel>::empty());
            assert(index@.pending =~= Seq::<DocumentModel>::empty());
        }
        index
    }

    /// The schema that the index was made with.
    pub fn schema(&self) -> (schema: Schema)
        ensures
            schema == self.spec_schema(),
    {
        self.schema
    }

    /// Whether the writer has failed.
    pub fn is_broken(&self) -> (r: bool)
        ensures
            r == self@.broken,
    {
        self.broken
    }

    /// Number of documents that readers can see after a refresh.
    pub fn committed_len(&self) -> (n: usize)
        ensures
            n == self@.committed.len(),
    {
        self.committed.len()
    }

    /// Number of documents added since the last commit.
    pub fn pending_len(&self) -> (n: usize)
        ensures
            n == self@.pending.len(),
    {
        self.pending.len()
    }

    /// The documents that readers can see after a refresh. The snapshot is
    /// shared, not copied.
    pub fn snapshot(&self) -> (docs: Snapshot)
        ensures
            shared_models(docs@) == self@.committed,
    {
        share(&self.committed)
    }

    /// The batch that the next commit makes visible, for the caller to
    /// write to storage.
    pub fn pending(&self) -> (batch: &Vec<Document>)
        ensures
            doc_models(batch@) == self@.pending,
    {
        &self.pending
    }

    /// Adds a document to the pending batch. Nothing that readers see
    /// changes.
    pub fn add(&mut self, doc: Document) -> (added: Result<(), WriterError>)
        requires
            old(self).wf(),
        ensures
            final(self).wf(),
            final(self).spec_schema() == old(self).spec_schema(),
            final(self)@.committed == old(self)@.committed,
            final(self)@.broken == old(self)@.broken,
            old(self)@.broken ==> added == Err::<(), WriterError>(WriterError::Broken)
                && final(self)@.pending == old(self)@.pending,
            !old(self)@.broken ==> added is Ok && final(self)@.pending == old(self)@.pending.push(
                doc@,
            ),
    {
        if self.broken {
            return Err(WriterError::Broken);
        }
        self.pending.push(doc);
        Ok(())
    }

    /// Commits the pending batch. `stored` says whether the caller got the
    /// batch onto durable storage. If it did, the batch becomes visible as
    /// a whole and the number of documents in it is returned; if it did
    /// not, nothing becomes visible and the writer is broken from then on.
    pub fn commit(&mut self, stored: bool) -> (committed: Result<usize, WriterError>)
        requires
            old(self).wf(),
        ensures
            final(self).wf(),
            final(self).spec_schema() == old(self).spec_schema(),
            old(self)@.broken ==> committed == Err::<usize, WriterError>(WriterError::Broken)
                && final(self)@ == old(self)@,
            !old(self)@.broken && !stored ==> committed == Err::<usize, WriterError>(
                WriterError::Storage,
            ) && final(self)@ == (IndexModel { broken: true, ..old(self)@ }),
            !old(self)@.broken && stored ==> committed is Ok && committed->Ok_0 == old(self)@.pending.len()
                && final(self)@ == (IndexModel {
                committed: merge(old(self)@.committed, old(self)@.pending),
                pending: Seq::empty(),
                broken: false,
            }),
    {
        if self.broken {
            return Err(WriterError::Broken);
        }
        if !stored {
            self.broken = true;
            return Err(WriterError::Storage);
        }
        let mut batch: Vec<Document> = Vec::new();
        std::mem::swap(&mut self.pending, &mut batch);
        let n: usize = batch.len();
        let ghost all = doc_models(batch@);
        let ghost start = old(self)@.committed;
        let mut next: Vec<Arc<Document>> = share_all(&self.committed);
        proof {
            assert(all.subrange(0, n as int) =~= all);
        }
        for doc in it: batch
            invariant
                n == all.len(),
                doc_models(it.seq()) == all,
                unique_paths(shared_models(next@)),
                merge(shared_models(next@), all.subrange(it.index() as int, n as int)) == merge(
                    start,
                    all,
                ),
        {
            let ghost before = shared_models(next@);
            let ghost tail = all.subrange(it.index() as int, n as int);
            proof {
                assert(tail.drop_first() =~= all.subrange(it.index() + 1, n as int));
                lemma_upsert(before, doc@);
            }
            match find_slot(&next, &doc.path) {
                Some(i) => {
                    next.set(i, Arc::new(doc));
                },
                None => {
                    next.push(Arc::new(doc));
                },
            }
            proof {
                assert(shared_models(next@) =~= upsert(before, doc@));
            }
        }
        self.committed = Arc::new(next);
        proof {
            assert(self@.pending =~= Seq::<DocumentModel>::empty());
        }
        Ok(n)
    }
}

} // verus!
