use std::collections::HashMap;

use sids::change_cache::ChangeCache;
use sids::document::{extract, Document, Schema};
use sids::file_collector::{Candidate, EntryKind, Fault, Probe};
use sids::index::{Index, WriterError};
use sids::index_format::{decode_journal, encode_batch, journal_header};
use sids::indexer::{Dequeue, IndexerConfig, IndexerError, Summary};
use sids::pipeline::{Action, Pipeline};
use sids::rules::Rules;
use sids::searcher::Searcher;

/// A file tree held in memory: what each directory lists, and what reading
/// each file gives.
struct Tree {
    listings: HashMap<String, Vec<(String, Result<Probe, Fault>)>>,
    contents: HashMap<String, Result<Vec<u8>, Fault>>,
}

impl Tree {
    fn new() -> Tree {
        Tree { listings: HashMap::new(), contents: HashMap::new() }
    }

    fn dir(&mut self, parent: &str, path: &str) {
        let probe = Probe { kind: EntryKind::Directory, modified: 0, size: 0 };
        self.listings.entry(parent.to_string()).or_default().push((path.to_string(), Ok(probe)));
        self.listings.entry(path.to_string()).or_default();
    }

    fn file(&mut self, parent: &str, path: &str, modified: u64, text: &str) {
        let probe = Probe { kind: EntryKind::File, modified, size: text.len() as u64 };
        self.listings.entry(parent.to_string()).or_default().push((path.to_string(), Ok(probe)));
        self.contents.insert(path.to_string(), Ok(text.as_bytes().to_vec()));
    }

    fn unreadable(&mut self, parent: &str, path: &str, modified: u64, fault: Fault) {
        let probe = Probe { kind: EntryKind::File, modified, size: 0 };
        self.listings.entry(parent.to_string()).or_default().push((path.to_string(), Ok(probe)));
        self.contents.insert(path.to_string(), Err(fault));
    }

    fn broken(&mut self, parent: &str, path: &str, fault: Fault) {
        self.listings.entry(parent.to_string()).or_default().push((path.to_string(), Err(fault)));
    }

    fn list(&self, dir: &str) -> Vec<Candidate> {
        match self.listings.get(dir) {
            Some(entries) => entries
                .iter()
                .map(|(path, probe)| Candidate { path: path.clone(), probe: *probe })
                .collect(),
            None => vec![Candidate { path: dir.to_string(), probe: Err(Fault::Vanished) }],
        }
    }

    fn read(&self, path: &str) -> Result<Vec<u8>, Fault> {
        match self.contents.get(path) {
            Some(content) => content.clone(),
            None => Err(Fault::Vanished),
        }
    }
}

fn schema() -> Schema {
    Schema { max_body_len: 1 << 20, case_sensitive: false }
}

fn config(queue_capacity: usize, workers: usize) -> IndexerConfig {
    IndexerConfig { schema: schema(), queue_capacity, workers, commit_interval: 10 }
}

/// One worker's turn. Returns whether it worked on a job.
fn work(pipeline: &mut Pipeline, tree: &Tree, now: u64) -> bool {
    match pipeline.next_job() {
        Dequeue::Job(job) => {
            let content = tree.read(&job.0.path);
            let outcome = extract(&schema(), job, content);
            pipeline.complete_job(outcome).unwrap();
            if pipeline.commit_due(now) {
                pipeline.commit(now, true).unwrap();
            }
            true
        }
        Dequeue::Wait | Dequeue::Exit => false,
    }
}

/// Runs discovery while `running` says so, with one worker that works only
/// when the queue is full, then drains and finishes.
fn run(pipeline: &mut Pipeline, tree: &Tree, mut running: impl FnMut(usize) -> bool) -> Summary {
    let mut turns = 0;
    let mut waits = 0;
    loop {
        if !running(turns) {
            pipeline.stop();
        }
        let action = pipeline.step();
        turns += 1;
        match action {
            Action::List(dir) => pipeline.supply(tree.list(&dir)),
            Action::Wait => {
                waits += 1;
                assert!(work(pipeline, tree, turns as u64));
            }
            Action::Continue => {}
            Action::Drain => break,
            Action::Fatal(e) => panic!("indexer failed: {:?}", e),
        }
        assert!(turns < 10_000);
    }
    let _ = waits;
    assert_eq!(pipeline.step(), Action::Drain);
    while work(pipeline, tree, turns as u64) {}
    assert!(pipeline.is_drained());
    pipeline.finish(turns as u64, true).unwrap()
}

#[test]
fn end_to_end_two_files() {
    let mut tree = Tree::new();
    tree.file("root", "root/A.txt", 1_111, "apple pie");
    tree.file("root", "root/B.txt", 2_222, "banana split");
    let mut pipeline = Pipeline::new(
        vec!["root".to_string()],
        Rules::everything(),
        ChangeCache::new(),
        &config(8, 2),
        0,
    )
    .unwrap();
    let summary = run(&mut pipeline, &tree, |_| true);
    assert_eq!(summary, Summary { accepted: 2, dropped: 0, committed: 2 });
    assert_eq!(pipeline.indexed_files(), 2);
    assert_eq!(pipeline.faults(), 0);

    let searcher = Searcher::new(schema(), pipeline.index()).unwrap();
    let hits = searcher.search("apple").unwrap();
    assert_eq!(hits.len(), 1);
    assert_eq!(hits[0].path, "root/A.txt");
    let hits = searcher.search("banana").unwrap();
    assert_eq!(hits.len(), 1);
    assert_eq!(hits[0].path, "root/B.txt");

    let (cache, _indexer) = pipeline.into_parts();
    let stored = cache.persist();
    let reloaded = ChangeCache::load(Some(&stored)).unwrap();
    assert_eq!(reloaded.len(), 2);
    assert_eq!(reloaded.lookup("root/A.txt"), Some(1_111));
    assert_eq!(reloaded.lookup("root/B.txt"), Some(2_222));
}

#[test]
fn second_run_indexes_only_what_changed() {
    let mut tree = Tree::new();
    tree.file("root", "root/A.txt", 10, "apple pie");
    tree.file("root", "root/B.txt", 20, "banana split");
    let mut first = Pipeline::new(
        vec!["root".to_string()],
        Rules::everything(),
        ChangeCache::new(),
        &config(8, 1),
        0,
    )
    .unwrap();
    run(&mut first, &tree, |_| true);
    let stored = first.into_parts().0.persist();

    let mut tree = Tree::new();
    tree.file("root", "root/A.txt", 10, "apple pie");
    tree.file("root", "root/B.txt", 21, "banana bread");
    let cache = ChangeCache::load(Some(&stored)).unwrap();
    let mut second = Pipeline::new(
        vec!["root".to_string()],
        Rules::everything(),
        cache,
        &config(8, 1),
        0,
    )
    .unwrap();
    assert_eq!(second.indexed_files(), 2);
    let summary = run(&mut second, &tree, |_| true);
    assert_eq!(summary, Summary { accepted: 1, dropped: 0, committed: 1 });
    assert_eq!(second.indexed_files(), 3);
    let searcher = Searcher::new(schema(), second.index()).unwrap();
    assert_eq!(searcher.search("apple").unwrap(), Vec::new());
    assert_eq!(searcher.search("bread").unwrap().len(), 1);
    assert_eq!(second.cache().lookup("root/B.txt"), Some(21));
}

#[test]
fn faults_and_failed_extractions_do_not_stop_the_run() {
    let mut tree = Tree::new();
    tree.file("root", "root/ok1.txt", 1, "cherry");
    tree.broken("root", "root/locked", Fault::PermissionDenied);
    tree.unreadable("root", "root/gone.txt", 2, Fault::Vanished);
    tree.file("root", "root/binary", 3, "cherry\0cherry");
    tree.dir("root", "root/sub");
    tree.file("root/sub", "root/sub/ok2.txt", 4, "cherry cherry");
    let mut pipeline = Pipeline::new(
        vec!["root".to_string(), "missing".to_string()],
        Rules::everything(),
        ChangeCache::new(),
        &config(8, 1),
        0,
    )
    .unwrap();
    let summary = run(&mut pipeline, &tree, |_| true);
    assert_eq!(summary, Summary { accepted: 4, dropped: 2, committed: 2 });
    assert_eq!(pipeline.faults(), 2);
    assert_eq!(pipeline.indexed_files(), 4);
    let searcher = Searcher::new(schema(), pipeline.index()).unwrap();
    let hits = searcher.search("cherry").unwrap();
    assert_eq!(hits.len(), 2);
    assert_eq!(hits[0].path, "root/sub/ok2.txt");
    assert_eq!(hits[0].score, 2);
    assert_eq!(hits[1].path, "root/ok1.txt");
    // Recorded at discovery, whether or not extraction worked.
    assert_eq!(pipeline.cache().lookup("root/gone.txt"), Some(2));
    assert_eq!(pipeline.cache().lookup("root/binary"), Some(3));
    assert_eq!(pipeline.cache().lookup("root/locked"), None);
}

#[test]
fn full_queue_parks_the_request_until_there_is_room() {
    let mut tree = Tree::new();
    tree.file("root", "root/1", 1, "one");
    tree.file("root", "root/2", 1, "two");
    tree.file("root", "root/3", 1, "three");
    let mut pipeline = Pipeline::new(
        vec!["root".to_string()],
        Rules::everything(),
        ChangeCache::new(),
        &config(1, 1),
        0,
    )
    .unwrap();
    assert_eq!(pipeline.step(), Action::List("root".to_string()));
    pipeline.supply(tree.list("root"));
    assert_eq!(pipeline.step(), Action::Continue);
    assert_eq!(pipeline.indexed_files(), 1);
    assert_eq!(pipeline.step(), Action::Wait);
    assert_eq!(pipeline.step(), Action::Wait);
    assert_eq!(pipeline.indexed_files(), 1);
    assert_eq!(pipeline.indexer().queued(), 1);
    assert!(work(&mut pipeline, &tree, 1));
    assert_eq!(pipeline.step(), Action::Continue);
    assert_eq!(pipeline.indexed_files(), 2);
    assert_eq!(pipeline.step(), Action::Wait);
    assert!(work(&mut pipeline, &tree, 1));
    assert_eq!(pipeline.step(), Action::Continue);
    assert_eq!(pipeline.step(), Action::Drain);
    assert!(!pipeline.is_drained());
    assert!(work(&mut pipeline, &tree, 1));
    assert!(!work(&mut pipeline, &tree, 1));
    assert!(pipeline.is_drained());
    assert_eq!(
        pipeline.finish(2, true),
        Ok(Summary { accepted: 3, dropped: 0, committed: 3 })
    );
}

#[test]
fn cleared_flag_stops_discovery_but_queued_work_completes() {
    let mut tree = Tree::new();
    for i in 0..6 {
        tree.file("root", &format!("root/f{}", i), 1, "grape");
    }
    let mut pipeline = Pipeline::new(
        vec!["root".to_string()],
        Rules::everything(),
        ChangeCache::new(),
        &config(8, 1),
        0,
    )
    .unwrap();
    // Turn 0 lists the root, turns 1 to 3 queue a file each; the flag is
    // read as cleared on turn 4, after which nothing more is discovered.
    let summary = run(&mut pipeline, &tree, |turn| turn < 4);
    assert_eq!(summary, Summary { accepted: 3, dropped: 0, committed: 3 });
    assert_eq!(pipeline.indexed_files(), 3);
    assert_eq!(pipeline.indexer().queued(), 0);
    assert_eq!(pipeline.indexer().in_flight(), 0);
    assert_eq!(pipeline.index().pending_len(), 0);
    assert_eq!(pipeline.index().committed_len(), 3);
    assert_eq!(pipeline.cache().len(), 3);
    assert!(pipeline.indexer().is_closed());
}

#[test]
fn parked_request_is_queued_even_after_the_flag_was_cleared() {
    let mut tree = Tree::new();
    tree.file("root", "root/1", 1, "one");
    tree.file("root", "root/2", 1, "two");
    tree.file("root", "root/3", 1, "three");
    let mut pipeline = Pipeline::new(
        vec!["root".to_string()],
        Rules::everything(),
        ChangeCache::new(),
        &config(1, 1),
        0,
    )
    .unwrap();
    assert_eq!(pipeline.step(), Action::List("root".to_string()));
    pipeline.supply(tree.list("root"));
    assert_eq!(pipeline.step(), Action::Continue);
    assert_eq!(pipeline.step(), Action::Wait);
    assert!(pipeline.is_running());
    assert!(pipeline.stop());
    assert!(!pipeline.stop());
    assert!(!pipeline.is_running());
    assert_eq!(pipeline.step(), Action::Wait);
    assert!(work(&mut pipeline, &tree, 1));
    assert_eq!(pipeline.step(), Action::Drain);
    while work(&mut pipeline, &tree, 1) {}
    assert_eq!(
        pipeline.finish(2, true),
        Ok(Summary { accepted: 2, dropped: 0, committed: 2 })
    );
    // The second file was recorded when it was discovered, the third never was.
    assert_eq!(pipeline.cache().lookup("root/2"), Some(1));
    assert_eq!(pipeline.cache().lookup("root/3"), None);
}

#[test]
fn writer_failure_ends_discovery() {
    let mut tree = Tree::new();
    tree.file("root", "root/1", 1, "one");
    tree.file("root", "root/2", 1, "two");
    let mut pipeline = Pipeline::new(
        vec!["root".to_string()],
        Rules::everything(),
        ChangeCache::new(),
        &config(4, 1),
        0,
    )
    .unwrap();
    assert_eq!(pipeline.step(), Action::List("root".to_string()));
    pipeline.supply(tree.list("root"));
    assert_eq!(pipeline.step(), Action::Continue);
    match pipeline.next_job() {
        Dequeue::Job(job) => {
            let outcome = extract(&schema(), job, tree.read("root/1"));
            pipeline.complete_job(outcome).unwrap();
        }
        other => panic!("expected a job, got {:?}", other),
    }
    assert_eq!(pipeline.pending().len(), 1);
    assert_eq!(
        pipeline.commit(1, false),
        Err(IndexerError::Writer(WriterError::Storage))
    );
    assert_eq!(
        pipeline.step(),
        Action::Fatal(IndexerError::Writer(WriterError::Broken))
    );
    assert_eq!(pipeline.step(), Action::Drain);
    assert_eq!(pipeline.next_job(), Dequeue::Exit);
    assert_eq!(
        pipeline.finish(2, true),
        Err(IndexerError::Writer(WriterError::Broken))
    );
    // Searches still run against the last good snapshot.
    let searcher = Searcher::new(schema(), pipeline.index()).unwrap();
    assert_eq!(searcher.search("one").unwrap(), Vec::new());
}

#[test]
fn invalid_config_makes_no_pipeline() {
    let made = Pipeline::new(
        Vec::new(),
        Rules::everything(),
        ChangeCache::new(),
        &config(0, 1),
        0,
    );
    assert_eq!(made.err(), Some(IndexerError::InvalidConfig));
}

#[test]
fn pipeline_resumes_from_a_journal() {
    let mut tree = Tree::new();
    tree.file("root", "root/A.txt", 10, "apple pie");
    let mut first = Pipeline::new(
        vec!["root".to_string()],
        Rules::everything(),
        ChangeCache::new(),
        &config(8, 1),
        0,
    )
    .unwrap();
    assert_eq!(first.spawn_workers(), Ok(1));
    assert_eq!(first.spawn_workers(), Err(IndexerError::AlreadyStarted));
    assert_eq!(first.schema(), schema());

    // Discover and work, then write the batch to the journal before the
    // final commit, as a caller with storage does.
    let mut journal = journal_header();
    loop {
        match first.step() {
            Action::List(dir) => first.supply(tree.list(&dir)),
            Action::Continue => {}
            Action::Drain => break,
            other => panic!("unexpected action {:?}", other),
        }
    }
    while let Dequeue::Job(job) = first.next_job() {
        let content = tree.read(&job.0.path);
        first.complete_job(extract(&schema(), job, content)).unwrap();
    }
    assert_eq!(
        first.pending(),
        &vec![Document {
            path: "root/A.txt".to_string(),
            modified: 10,
            body: b"apple pie".to_vec()
        }]
    );
    journal.extend(encode_batch(first.pending()));
    first.finish(1, true).unwrap();
    let stored_cache = first.into_parts().0.persist();

    // A later process: nothing changed on disk, and the index is back.
    let index = Index::restore(schema(), decode_journal(&journal).unwrap());
    let cache = ChangeCache::load(Some(&stored_cache)).unwrap();
    let mut second = Pipeline::with_index(
        vec!["root".to_string()],
        Rules::everything(),
        cache,
        index,
        &config(8, 1),
        0,
    )
    .unwrap();
    let summary = run(&mut second, &tree, |_| true);
    assert_eq!(summary, Summary { accepted: 0, dropped: 0, committed: 0 });
    let searcher = Searcher::new(schema(), second.index()).unwrap();
    let hits = searcher.search("pie").unwrap();
    assert_eq!(hits.len(), 1);
    assert_eq!(hits[0].path, "root/A.txt");
}

#[test]
fn searchers_keep_their_snapshot_while_the_pipeline_commits() {
    let mut tree = Tree::new();
    tree.file("root", "root/1", 1, "melon");
    tree.file("root", "root/2", 1, "melon melon");
    let mut pipeline = Pipeline::new(
        vec!["root".to_string()],
        Rules::everything(),
        ChangeCache::new(),
        &IndexerConfig { schema: schema(), queue_capacity: 8, workers: 1, commit_interval: 0 },
        0,
    )
    .unwrap();
    let mut searcher = Searcher::new(schema(), pipeline.index()).unwrap();
    assert_eq!(pipeline.step(), Action::List("root".to_string()));
    pipeline.supply(tree.list("root"));
    assert_eq!(pipeline.step(), Action::Continue);
    // With a commit interval of zero the worker commits after each job.
    assert!(work(&mut pipeline, &tree, 1));
    assert_eq!(pipeline.index().committed_len(), 1);
    assert_eq!(searcher.search("melon").unwrap(), Vec::new());
    searcher.refresh(pipeline.index());
    let early = searcher.duplicate();
    assert_eq!(pipeline.step(), Action::Continue);
    assert!(work(&mut pipeline, &tree, 2));
    searcher.refresh(pipeline.index());
    assert_eq!(early.search("melon").unwrap().len(), 1);
    let hits = searcher.search("melon").unwrap();
    assert_eq!(hits.len(), 2);
    assert_eq!(hits[0].path, "root/2");
    assert_eq!(hits[1].path, "root/1");
}
