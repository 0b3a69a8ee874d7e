use sids::document::{Document, Schema};
use sids::index::{Index, WriterError};
use sids::searcher::{Match, QueryError, SchemaMismatch, Searcher};

fn schema() -> Schema {
    Schema { max_body_len: 1 << 20, case_sensitive: false }
}

fn doc(path: &str, body: &str) -> Document {
    Document { path: path.to_string(), modified: 1, body: body.as_bytes().to_vec() }
}

fn paths(hits: &[Match]) -> Vec<&str> {
    hits.iter().map(|hit| hit.path.as_str()).collect()
}

#[test]
fn new_index_is_empty() {
    let index = Index::new(schema());
    assert_eq!(index.committed_len(), 0);
    assert_eq!(index.pending_len(), 0);
    assert!(!index.is_broken());
    assert_eq!(index.schema(), schema());
}

#[test]
fn uncommitted_documents_are_invisible() {
    let mut index = Index::new(schema());
    let mut searcher = Searcher::new(schema(), &index).unwrap();
    index.add(doc("a.txt", "a unique zebra")).unwrap();
    assert_eq!(index.pending_len(), 1);
    assert_eq!(index.committed_len(), 0);

    assert_eq!(searcher.search("zebra").unwrap(), Vec::new());
    searcher.refresh(&index);
    assert_eq!(searcher.search("zebra").unwrap(), Vec::new());
    let late = Searcher::new(schema(), &index).unwrap();
    assert_eq!(late.search("zebra").unwrap(), Vec::new());

    assert_eq!(index.commit(true), Ok(1));
    assert_eq!(searcher.search("zebra").unwrap(), Vec::new());
    searcher.refresh(&index);
    assert_eq!(
        searcher.search("zebra").unwrap(),
        vec![Match { doc: 0, path: "a.txt".to_string(), score: 1 }]
    );
}

#[test]
fn commit_makes_a_batch_visible_as_a_whole() {
    let mut index = Index::new(schema());
    index.add(doc("a", "one")).unwrap();
    index.add(doc("b", "two")).unwrap();
    index.add(doc("c", "three")).unwrap();
    assert_eq!(index.commit(true), Ok(3));
    assert_eq!(index.committed_len(), 3);
    assert_eq!(index.pending_len(), 0);
    assert_eq!(index.commit(true), Ok(0));
    assert_eq!(index.committed_len(), 3);
}

#[test]
fn a_path_keeps_its_latest_document() {
    let mut index = Index::new(schema());
    index.add(doc("a", "old words")).unwrap();
    index.add(doc("b", "other")).unwrap();
    index.commit(true).unwrap();
    index.add(doc("a", "new words")).unwrap();
    index.add(doc("a", "newest words")).unwrap();
    assert_eq!(index.commit(true), Ok(2));
    assert_eq!(index.committed_len(), 2);
    let searcher = Searcher::new(schema(), &index).unwrap();
    assert_eq!(searcher.search("old").unwrap(), Vec::new());
    assert_eq!(searcher.search("new").unwrap(), Vec::new());
    assert_eq!(
        searcher.search("newest").unwrap(),
        vec![Match { doc: 0, path: "a".to_string(), score: 1 }]
    );
    assert_eq!(paths(&searcher.search("words").unwrap()), vec!["a"]);
}

#[test]
fn failed_storage_breaks_the_writer() {
    let mut index = Index::new(schema());
    index.add(doc("a", "text")).unwrap();
    assert_eq!(index.commit(false), Err(WriterError::Storage));
    assert!(index.is_broken());
    assert_eq!(index.committed_len(), 0);
    assert_eq!(index.pending_len(), 1);
    assert_eq!(index.add(doc("b", "more")), Err(WriterError::Broken));
    assert_eq!(index.commit(true), Err(WriterError::Broken));
    assert_eq!(index.pending_len(), 1);
    let searcher = Searcher::new(schema(), &index).unwrap();
    assert_eq!(searcher.search("text").unwrap(), Vec::new());
}

#[test]
fn ranking_is_by_score_then_position() {
    let mut index = Index::new(schema());
    index.add(doc("one", "tea")).unwrap();
    index.add(doc("three", "tea tea, tea!")).unwrap();
    index.add(doc("none", "coffee teapot")).unwrap();
    index.add(doc("also-one", "TEA time")).unwrap();
    index.add(doc("two", "tea and Tea")).unwrap();
    index.commit(true).unwrap();
    let searcher = Searcher::new(schema(), &index).unwrap();
    assert_eq!(
        searcher.search("tea").unwrap(),
        vec![
            Match { doc: 1, path: "three".to_string(), score: 3 },
            Match { doc: 4, path: "two".to_string(), score: 2 },
            Match { doc: 0, path: "one".to_string(), score: 1 },
            Match { doc: 3, path: "also-one".to_string(), score: 1 },
        ]
    );
}

#[test]
fn case_sensitive_schema_matches_exactly() {
    let exact = Schema { max_body_len: 100, case_sensitive: true };
    let mut index = Index::new(exact);
    index.add(doc("a", "Tea tea TEA")).unwrap();
    index.commit(true).unwrap();
    let searcher = Searcher::new(exact, &index).unwrap();
    assert_eq!(
        searcher.search("tea").unwrap(),
        vec![Match { doc: 0, path: "a".to_string(), score: 1 }]
    );
    assert_eq!(searcher.search("tEa").unwrap(), Vec::new());
}

#[test]
fn malformed_queries_are_rejected() {
    let index = Index::new(schema());
    let searcher = Searcher::new(schema(), &index).unwrap();
    assert_eq!(searcher.search(""), Err(QueryError::Empty));
    assert_eq!(searcher.search("two words"), Err(QueryError::NotATerm));
    assert_eq!(searcher.search(" "), Err(QueryError::NotATerm));
    assert_eq!(searcher.search("semi;colon"), Err(QueryError::NotATerm));
    assert_eq!(searcher.search("ok"), Ok(Vec::new()));
}

#[test]
fn searcher_needs_the_index_schema() {
    let index = Index::new(schema());
    let other = Schema { max_body_len: 1 << 20, case_sensitive: true };
    assert_eq!(Searcher::new(other, &index).err(), Some(SchemaMismatch));
    assert!(Searcher::new(schema(), &index).is_ok());
}

#[test]
fn duplicate_shares_the_snapshot_not_the_refreshes() {
    let mut index = Index::new(schema());
    index.add(doc("a", "first")).unwrap();
    index.commit(true).unwrap();
    let mut searcher = Searcher::new(schema(), &index).unwrap();
    let twin = searcher.duplicate();
    index.add(doc("b", "second")).unwrap();
    index.commit(true).unwrap();
    searcher.refresh(&index);
    assert_eq!(searcher.snapshot_len(), 2);
    assert_eq!(twin.snapshot_len(), 1);
    assert_eq!(paths(&twin.search("first").unwrap()), vec!["a"]);
    assert_eq!(twin.search("second").unwrap(), Vec::new());
    assert_eq!(paths(&searcher.search("second").unwrap()), vec!["b"]);
}

#[test]
fn multibyte_words_are_matched_whole() {
    let mut index = Index::new(schema());
    index.add(doc("a", "un caf\u{e9} noir")).unwrap();
    index.add(doc("b", "cafe")).unwrap();
    index.commit(true).unwrap();
    let searcher = Searcher::new(schema(), &index).unwrap();
    assert_eq!(paths(&searcher.search("caf\u{e9}").unwrap()), vec!["a"]);
    assert_eq!(paths(&searcher.search("cafe").unwrap()), vec!["b"]);
}
