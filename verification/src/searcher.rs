//! The searcher: the read side of the index.
//!
//! A searcher holds a snapshot of the committed documents, taken when it
//! was made or last refreshed. A snapshot is immutable and shared, so
//! taking one costs a pointer copy, and searching one never waits for the
//! writer: documents that are added or committed after the snapshot was
//! taken do not show until the next refresh.
//!
//! A query is one term. A document matches when the term occurs in its
//! body as a word; its score is the number of such words. Matches are
//! ranked by score, highest first, and among equal scores by position in
//! the snapshot.

use crate::document::{shared_models, DocumentModel, Schema, Snapshot};
use crate::sharing::share;
use crate::index::{
    lemma_merge_push, lemma_merge_unique, lemma_upsert, merge, slot, unique_paths, Index,
};
use crate::text::{check_term, count_occurrences, is_term, occurrences};
use vstd::prelude::*;
use vstd::utf8::encode_utf8;

verus! {

/// Why a query was rejected.
#[derive(Debug, Clone, Copy, PartialEq, Eq, Structural)]
pub enum QueryError {
    /// The query is empty.
    Empty,
    /// The query is not a single word.
    NotATerm,
}

/// The searcher was asked to read an index made with another schema.
#[derive(Debug, Clone, Copy, PartialEq, Eq, Structural)]
pub struct SchemaMismatch;

/// One search result.
#[derive(Debug, Clone, PartialEq, Eq)]
pub struct Match {
    /// Position of the document in the snapshot.
    pub doc: usize,
    /// The file that the document is about.
    pub path: String,
    /// Number of words of the body that equal the term.
    pub score: usize,
}

/// A match as plain values.
pub struct MatchModel {
    pub doc: usize,
    pub path: Seq<char>,
    pub score: usize,
}

impl View for Match {
    type V = MatchModel;

    open spec fn view(&self) -> MatchModel {
        MatchModel { doc: self.doc, path: self.path@, score: self.score }
    }
}

/// The views of a list of matches.
pub open spec fn match_models(hits: Seq<Match>) -> Seq<MatchModel> {
    Seq::new(hits.len(), |i: int| hits[i]@)
}

/// The score of a document for a term.
pub open spec fn score(schema: Schema, doc: DocumentModel, term: Seq<u8>) -> nat {
    occurrences(doc.body, term, schema.case_sensitive)
}

/// `a` comes before `b` in a ranking.
pub open spec fn outranks(a: MatchModel, b: MatchModel) -> bool {
    a.score > b.score || (a.score == b.score && a.doc < b.doc)
}

/// `hit` reports a document among the first `upto` of `docs` that matches
/// `term`, with its path and score.
pub open spec fn reports(
    hit: MatchModel,
    docs: Seq<DocumentModel>,
    term: Seq<u8>,
    schema: Schema,
    upto: int,
) -> bool {
    &&& hit.doc < upto
    &&& hit.doc < docs.len()
    &&& hit.path == docs[hit.doc as int].path
    &&& hit.score == score(schema, docs[hit.doc as int], term)
    &&& hit.score > 0
}

/// Some match of `hits` is about document `d`.
pub open spec fn lists(hits: Seq<MatchModel>, d: int) -> bool {
    exists|k: int| 0 <= k < hits.len() && (#[trigger] hits[k]).doc == d
}

/// `hits` is the ranking of the first `upto` documents of `docs` for
/// `term`: every match reports a matching document, every matching
/// document is listed, and the matches are in rank order.
pub open spec fn ranks(
    hits: Seq<MatchModel>,
    docs: Seq<DocumentModel>,
    term: Seq<u8>,
    schema: Schema,
    upto: int,
) -> bool {
    &&& forall|k: int|
        0 <= k < hits.len() ==> reports(#[trigger] hits[k], docs, term, schema, upto)
    &&& forall|d: int|
        0 <= d < upto && d < docs.len() && score(schema, #[trigger] docs[d], term) > 0
            ==> lists(hits, d)
    &&& forall|k: int, l: int|
        0 <= k < l < hits.len() ==> outranks(#[trigger] hits[k], #[trigger] hits[l])
}

/// `hits` is the ranking of `docs` for `term`.
pub open spec fn is_ranking(
    hits: Seq<MatchModel>,
    docs: Seq<DocumentModel>,
    term: Seq<u8>,
    schema: Schema,
) -> bool {
    ranks(hits, docs, term, schema, docs.len() as int)
}

/// What a search returns for a query, given the ranking of the snapshot.
pub open spec fn answer(query: Seq<u8>, outcome: Result<Seq<MatchModel>, QueryError>, docs: Seq<
    DocumentModel,
>, schema: Schema) -> bool {
    if query.len() == 0 {
        outcome == Err::<Seq<MatchModel>, QueryError>(QueryError::Empty)
    } else if !is_term(query) {
        outcome == Err::<Seq<MatchModel>, QueryError>(QueryError::NotATerm)
    } else {
        outcome is Ok && is_ranking(outcome->Ok_0, docs, query, schema)
    }
}

/// The result of a search as plain values.
pub open spec fn outcome_model(outcome: Result<Vec<Match>, QueryError>) -> Result<
    Seq<MatchModel>,
    QueryError,
> {
    match outcome {
        Ok(hits) => Ok(match_models(hits@)),
        Err(e) => Err(e),
    }
}

/// The matches are in rank order.
pub open spec fn in_rank_order(hits: Seq<MatchModel>) -> bool {
    forall|k: int, l: int|
        0 <= k < l < hits.len() ==> outranks(#[trigger] hits[k], #[trigger] hits[l])
}

/// `x` is one of `hits`.
pub open spec fn occurs(hits: Seq<MatchModel>, x: MatchModel) -> bool {
    exists|l: int| 0 <= l < hits.len() && #[trigger] hits[l] == x
}

/// Every match of `a` is a match of `b`.
pub open spec fn within(a: Seq<MatchModel>, b: Seq<MatchModel>) -> bool {
    forall|k: int| 0 <= k < a.len() ==> occurs(b, #[trigger] a[k])
}

/// Two lists in rank order that hold the same matches are the same list.
pub proof fn lemma_rank_order_is_unique(a: Seq<MatchModel>, b: Seq<MatchModel>)
    requires
        in_rank_order(a),
        in_rank_order(b),
        within(a, b),
        within(b, a),
    ensures
        a == b,
    decreases a.len(),
{
    if a.len() == 0 {
        if b.len() > 0 {
            assert(occurs(a, b[0]));
        }
        assert(a =~= b);
    } else {
        let x = a.last();
        let y = b.last();
        assert(occurs(b, a[a.len() - 1]));
        let j = choose|j: int| 0 <= j < b.len() && #[trigger] b[j] == x;
        assert(occurs(a, b[b.len() - 1]));
        let i = choose|i: int| 0 <= i < a.len() && #[trigger] a[i] == y;
        if j < b.len() - 1 && i < a.len() - 1 {
            assert(outranks(b[j], b[b.len() - 1]));
            assert(outranks(a[i], a[a.len() - 1]));
        }
        assert(x == y);
        let shorter_a = a.drop_last();
        let shorter_b = b.drop_last();
        assert forall|k: int| 0 <= k < shorter_a.len() implies occurs(
            shorter_b,
            #[trigger] shorter_a[k],
        ) by {
            assert(occurs(b, a[k]));
            let l = choose|l: int| 0 <= l < b.len() && #[trigger] b[l] == a[k];
            assert(outranks(a[k], a[a.len() - 1]));
            assert(shorter_b[l] == shorter_a[k]);
        }
        assert forall|k: int| 0 <= k < shorter_b.len() implies occurs(
            shorter_a,
            #[trigger] shorter_b[k],
        ) by {
            assert(occurs(a, b[k]));
            let l = choose|l: int| 0 <= l < a.len() && #[trigger] a[l] == b[k];
            assert(outranks(b[k], b[b.len() - 1]));
            assert(shorter_a[l] == shorter_b[k]);
        }
        assert forall|k: int, l: int| 0 <= k < l < shorter_a.len() implies outranks(
            #[trigger] shorter_a[k],
            #[trigger] shorter_a[l],
        ) by {
            assert(outranks(a[k], a[l]));
        }
        assert forall|k: int, l: int| 0 <= k < l < shorter_b.len() implies outranks(
            #[trigger] shorter_b[k],
            #[trigger] shorter_b[l],
        ) by {
            assert(outranks(b[k], b[l]));
        }
        lemma_rank_order_is_unique(shorter_a, shorter_b);
        assert(a =~= shorter_a.push(x));
        assert(b =~= shorter_b.push(y));
    }
}

/// A search has one answer: any two rankings of the same documents for
/// the same term are equal.
pub proof fn lemma_ranking_is_unique(
    a: Seq<MatchModel>,
    b: Seq<MatchModel>,
    docs: Seq<DocumentModel>,
    term: Seq<u8>,
    schema: Schema,
)
    requires
        is_ranking(a, docs, term, schema),
        is_ranking(b, docs, term, schema),
    ensures
        a == b,
{
    assert forall|k: int| 0 <= k < a.len() implies occurs(b, #[trigger] a[k]) by {
        assert(reports(a[k], docs, term, schema, docs.len() as int));
        let d = a[k].doc as int;
        assert(lists(b, d));
        let l = choose|l: int| 0 <= l < b.len() && (#[trigger] b[l]).doc == d;
        assert(reports(b[l], docs, term, schema, docs.len() as int));
        assert(b[l] == a[k]);
    }
    assert forall|k: int| 0 <= k < b.len() implies occurs(a, #[trigger] b[k]) by {
        assert(reports(b[k], docs, term, schema, docs.len() as int));
        let d = b[k].doc as int;
        assert(lists(a, d));
        let l = choose|l: int| 0 <= l < a.len() && (#[trigger] a[l]).doc == d;
        assert(reports(a[l], docs, term, schema, docs.len() as int));
        assert(a[l] == b[k]);
    }
    lemma_rank_order_is_unique(a, b);
}

/// A snapshot in which no document holds the term gives no match.
pub proof fn lemma_unheld_term_finds_nothing(
    hits: Seq<MatchModel>,
    docs: Seq<DocumentModel>,
    term: Seq<u8>,
    schema: Schema,
)
    requires
        is_ranking(hits, docs, term, schema),
        forall|d: int| 0 <= d < docs.len() ==> score(schema, #[trigger] docs[d], term) == 0,
    ensures
        hits.len() == 0,
{
    if hits.len() > 0 {
        assert(reports(hits[0], docs, term, schema, docs.len() as int));
    }
}

/// Commits are the visibility boundary. Take an index in which no
/// committed document holds `term`, and add a document that does.
///
/// Before the commit, whatever a searcher's snapshot of the committed
/// documents is ranked to, it is empty: the added document is in no
/// result. After the commit and a refresh, the ranking lists the added
/// document under its path.
pub proof fn lemma_commit_visibility(
    committed: Seq<DocumentModel>,
    pending: Seq<DocumentModel>,
    doc: DocumentModel,
    term: Seq<u8>,
    schema: Schema,
    hits_before: Seq<MatchModel>,
    hits_after: Seq<MatchModel>,
)
    requires
        unique_paths(committed),
        forall|d: int| 0 <= d < committed.len() ==> score(schema, #[trigger] committed[d], term) == 0,
        score(schema, doc, term) > 0,
        is_ranking(hits_before, committed, term, schema),
        is_ranking(hits_after, merge(committed, pending.push(doc)), term, schema),
    ensures
        hits_before.len() == 0,
        exists|k: int|
            0 <= k < hits_after.len() && (#[trigger] hits_after[k]).path == doc.path
                && hits_after[k].score == score(schema, doc, term),
{
    lemma_unheld_term_finds_nothing(hits_before, committed, term, schema);
    let merged = merge(committed, pending);
    lemma_merge_unique(committed, pending);
    lemma_merge_push(committed, pending, doc);
    lemma_upsert(merged, doc);
}

/// A read-only handle on the committed documents.
pub struct Searcher {
    schema: Schema,
    snapshot: Snapshot,
}

impl Searcher {
    /// The snapshot that searches run against.
    pub closed spec fn view(&self) -> Seq<DocumentModel> {
        shared_models(self.snapshot@)
    }

    /// The schema that the searcher matches with.
    pub closed spec fn spec_schema(&self) -> Schema {
        self.schema
    }

    /// A searcher over what `index` has committed so far. The schema must
    /// be the one that the index was made with.
    pub fn new(schema: Schema, index: &Index) -> (made: Result<Searcher, SchemaMismatch>)
        ensures
            schema != index.spec_schema() ==> made is Err,
            schema == index.spec_schema() ==> made is Ok && made->Ok_0@ == index@.committed
                && made->Ok_0.spec_schema() == schema,
    {
        let theirs: Schema = index.schema();
        if schema.max_body_len != theirs.max_body_len || schema.case_sensitive
            != theirs.case_sensitive {
            return Err(SchemaMismatch);
        }
        Ok(Searcher { schema, snapshot: index.snapshot() })
    }

    /// Takes a new snapshot: from now on searches see what `index` has
    /// committed up to this moment.
    pub fn refresh(&mut self, index: &Index)
        ensures
            final(self)@ == index@.committed,
            final(self).spec_schema() == old(self).spec_schema(),
    {
        self.snapshot = index.snapshot();
    }

    /// Another handle on the same snapshot.
    pub fn duplicate(&self) -> (other: Searcher)
        ensures
            other@ == self@,
            other.spec_schema() == self.spec_schema(),
    {
        Searcher { schema: self.schema, snapshot: share(&self.snapshot) }
    }

    /// Number of documents in the snapshot.
    pub fn snapshot_len(&self) -> (n: usize)
        ensures
            n == self@.len(),
    {
        self.snapshot.len()
    }

    /// Searches the snapshot for `query`.
    ///
    /// An empty query and a query that is not a single word are rejected.
    /// Otherwise the result is the ranking of the snapshot for the term:
    /// one match for each document in which the term occurs, ordered by
    /// score, highest first, and then by position in the snapshot.
    pub fn search(&self, query: &str) -> (outcome: Result<Vec<Match>, QueryError>)
        ensures
            answer(encode_utf8(query@), outcome_model(outcome), self@, self.spec_schema()),
    {
        let term: &[u8] = query.as_bytes();
        if term.len() == 0 {
            return Err(QueryError::Empty);
        }
        if !check_term(term) {
            return Err(QueryError::NotATerm);
        }
        let ghost docs = self@;
        let schema: Schema = self.schema;
        let n: usize = self.snapshot.len();
        let mut hits: Vec<Match> = Vec::new();
        let mut d: usize = 0;
        while d < n
            invariant
                docs == self@,
                schema == self.spec_schema(),
                n == docs.len(),
                d <= n,
                ranks(match_models(hits@), docs, term@, schema, d as int),
            decreases n - d,
        {
            let found: usize = count_occurrences(
                self.snapshot[d].body.as_slice(),
                term,
                schema.case_sensitive,
            );
            let ghost before = match_models(hits@);
            if found > 0 {
                let mut at: usize = 0;
                while at < hits.len() && hits[at].score >= found
                    invariant
                        at <= hits@.len(),
                        before == match_models(hits@),
                        forall|k: int| 0 <= k < at ==> (#[trigger] before[k]).score >= found,
                    decreases hits@.len() - at,
                {
                    at = at + 1;
                }
                let hit = Match { doc: d, path: self.snapshot[d].path.clone(), score: found };
                let ghost new = hit@;
                hits.insert(at, hit);
                proof {
                    let after = match_models(hits@);
                    assert(after =~= before.insert(at as int, new));
                    assert forall|k: int| 0 <= k < after.len() implies reports(
                        #[trigger] after[k],
                        docs,
                        term@,
                        schema,
                        d + 1,
                    ) by {}
                    assert forall|e: int|
                        0 <= e < d + 1 && e < docs.len() && score(schema, #[trigger] docs[e], term@)
                            > 0 implies lists(after, e) by {
                        if e == d {
                            assert(after[at as int].doc == e);
                        } else {
                            let k = choose|k: int|
                                0 <= k < before.len() && (#[trigger] before[k]).doc == e;
                            if k < at {
                                assert(after[k].doc == e);
                            } else {
                                assert(after[k + 1] == before[k]);
                            }
                        }
                    }
                    assert forall|k: int, l: int| 0 <= k < l < after.len() implies outranks(
                        #[trigger] after[k],
                        #[trigger] after[l],
                    ) by {
                        let b = if l < at {
                            l
                        } else {
                            l - 1
                        };
                        if k == at {
                            if at < before.len() {
                                if b > at {
                                    assert(outranks(before[at as int], before[b]));
                                }
                            }
                        }
                    }
                }
            } else {
                proof {
                    assert forall|k: int| 0 <= k < before.len() implies reports(
                        #[trigger] before[k],
                        docs,
                        term@,
                        schema,
                        d + 1,
                    ) by {}
                }
            }
            d = d + 1;
        }
        Ok(hits)
    }
}

} // verus!
