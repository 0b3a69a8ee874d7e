use sids::change_cache::ChangeCache;
use sids::file_collector::{
    Candidate, CollectorError, EntryKind, Fault, FileCollector, FileDescriptor, Poll, Probe,
};
use sids::rules::Rules;

fn file(path: &str, modified: u64, size: u64) -> Candidate {
    Candidate {
        path: path.to_string(),
        probe: Ok(Probe { kind: EntryKind::File, modified, size }),
    }
}

fn dir(path: &str) -> Candidate {
    Candidate {
        path: path.to_string(),
        probe: Ok(Probe { kind: EntryKind::Directory, modified: 0, size: 0 }),
    }
}

fn broken(path: &str, fault: Fault) -> Candidate {
    Candidate { path: path.to_string(), probe: Err(fault) }
}

fn descriptor(path: &str, modified: u64, size: u64) -> FileDescriptor {
    FileDescriptor { path: path.to_string(), modified, size }
}

#[test]
fn empty_roots_are_exhausted_at_once() {
    let mut collector =
        FileCollector::collect_files(Vec::new(), Rules::everything(), ChangeCache::new());
    assert!(!collector.is_finished());
    assert_eq!(collector.poll(true), Poll::Finished);
    assert!(collector.is_finished());
    assert_eq!(collector.poll(true), Poll::Finished);
}

#[test]
fn roots_are_asked_for_last_first() {
    let roots = vec!["r1".to_string(), "r2".to_string()];
    let mut collector =
        FileCollector::collect_files(roots, Rules::everything(), ChangeCache::new());
    assert_eq!(collector.poll(true), Poll::List("r2".to_string()));
    assert_eq!(collector.poll(true), Poll::List("r1".to_string()));
    assert_eq!(collector.poll(true), Poll::Finished);
}

#[test]
fn missing_root_yields_one_error_then_ends() {
    let roots = vec!["gone".to_string()];
    let mut collector =
        FileCollector::collect_files(roots, Rules::everything(), ChangeCache::new());
    assert_eq!(collector.poll(true), Poll::List("gone".to_string()));
    collector.supply(vec![broken("gone", Fault::Vanished)]);
    assert_eq!(
        collector.poll(true),
        Poll::Item(Err(CollectorError { path: "gone".to_string(), fault: Fault::Vanished }))
    );
    assert_eq!(collector.poll(true), Poll::Finished);
}

#[test]
fn fresh_files_are_yielded_and_recorded_at_discovery() {
    let mut collector = FileCollector::collect_files(
        vec!["r".to_string()],
        Rules::everything(),
        ChangeCache::new(),
    );
    assert_eq!(collector.poll(true), Poll::List("r".to_string()));
    collector.supply(vec![file("r/a", 10, 3), file("r/b", 20, 4)]);
    assert_eq!(collector.poll(true), Poll::Item(Ok(descriptor("r/a", 10, 3))));
    assert_eq!(collector.cache().lookup("r/a"), Some(10));
    assert_eq!(collector.cache().lookup("r/b"), None);
    assert_eq!(collector.poll(true), Poll::Item(Ok(descriptor("r/b", 20, 4))));
    assert_eq!(collector.poll(true), Poll::Finished);
    let cache = collector.into_cache();
    assert_eq!(cache.len(), 2);
    assert_eq!(cache.lookup("r/b"), Some(20));
}

#[test]
fn unchanged_files_are_skipped() {
    let mut cache = ChangeCache::new();
    cache.record("r/same", 10);
    cache.record("r/newer_in_cache", 30);
    cache.record("r/touched", 10);
    let mut collector =
        FileCollector::collect_files(vec!["r".to_string()], Rules::everything(), cache);
    assert_eq!(collector.poll(true), Poll::List("r".to_string()));
    collector.supply(vec![
        file("r/same", 10, 1),
        file("r/newer_in_cache", 20, 1),
        file("r/touched", 11, 1),
    ]);
    assert_eq!(collector.poll(true), Poll::Item(Ok(descriptor("r/touched", 11, 1))));
    assert_eq!(collector.poll(true), Poll::Finished);
    let cache = collector.into_cache();
    assert_eq!(cache.lookup("r/same"), Some(10));
    assert_eq!(cache.lookup("r/newer_in_cache"), Some(30));
    assert_eq!(cache.lookup("r/touched"), Some(11));
}

#[test]
fn second_run_yields_nothing_for_unchanged_files() {
    let listing = || vec![file("r/a", 10, 1), file("r/b", 20, 1)];
    let mut first = FileCollector::collect_files(
        vec!["r".to_string()],
        Rules::everything(),
        ChangeCache::new(),
    );
    assert_eq!(first.poll(true), Poll::List("r".to_string()));
    first.supply(listing());
    assert!(matches!(first.poll(true), Poll::Item(Ok(_))));
    assert!(matches!(first.poll(true), Poll::Item(Ok(_))));
    assert_eq!(first.poll(true), Poll::Finished);
    let stored = first.into_cache().persist();

    let cache = ChangeCache::load(Some(&stored)).unwrap();
    let mut second =
        FileCollector::collect_files(vec!["r".to_string()], Rules::everything(), cache);
    assert_eq!(second.poll(true), Poll::List("r".to_string()));
    second.supply(listing());
    assert_eq!(second.poll(true), Poll::Finished);
}

#[test]
fn a_file_seen_twice_in_one_run_is_yielded_once() {
    let mut collector = FileCollector::collect_files(
        vec!["r".to_string()],
        Rules::everything(),
        ChangeCache::new(),
    );
    assert_eq!(collector.poll(true), Poll::List("r".to_string()));
    collector.supply(vec![file("r/a", 10, 1), file("r/a", 10, 1)]);
    assert_eq!(collector.poll(true), Poll::Item(Ok(descriptor("r/a", 10, 1))));
    assert_eq!(collector.poll(true), Poll::Finished);
}

#[test]
fn one_bad_file_among_nine_healthy() {
    let mut entries = Vec::new();
    for i in 0..10 {
        if i == 4 {
            entries.push(broken("r/locked", Fault::PermissionDenied));
        } else {
            entries.push(file(&format!("r/f{}", i), 100 + i, 1));
        }
    }
    let mut collector = FileCollector::collect_files(
        vec!["r".to_string()],
        Rules::everything(),
        ChangeCache::new(),
    );
    assert_eq!(collector.poll(true), Poll::List("r".to_string()));
    collector.supply(entries);
    let mut ok = 0;
    let mut err = 0;
    loop {
        match collector.poll(true) {
            Poll::Item(Ok(_)) => ok += 1,
            Poll::Item(Err(e)) => {
                assert_eq!(e.path, "r/locked");
                assert_eq!(e.fault, Fault::PermissionDenied);
                err += 1;
            }
            Poll::List(_) => panic!("no directory was supplied"),
            Poll::Finished => break,
        }
    }
    assert_eq!(ok, 9);
    assert_eq!(err, 1);
    assert_eq!(collector.into_cache().len(), 9);
}

#[test]
fn directories_are_descended_unless_excluded() {
    let rules = Rules::new(vec![b".txt".to_vec()], vec![b"/skip".to_vec()]);
    let mut collector =
        FileCollector::collect_files(vec!["r".to_string()], rules, ChangeCache::new());
    assert_eq!(collector.poll(true), Poll::List("r".to_string()));
    collector.supply(vec![
        dir("r/skip"),
        dir("r/sub"),
        file("r/a.txt", 1, 1),
        file("r/a.bin", 1, 1),
    ]);
    assert_eq!(collector.poll(true), Poll::Item(Ok(descriptor("r/a.txt", 1, 1))));
    assert_eq!(collector.poll(true), Poll::List("r/sub".to_string()));
    collector.supply(vec![file("r/sub/b.txt", 2, 1), broken("r/sub/c.txt", Fault::BrokenLink)]);
    assert_eq!(collector.poll(true), Poll::Item(Ok(descriptor("r/sub/b.txt", 2, 1))));
    assert_eq!(
        collector.poll(true),
        Poll::Item(Err(CollectorError {
            path: "r/sub/c.txt".to_string(),
            fault: Fault::BrokenLink
        }))
    );
    assert_eq!(collector.poll(true), Poll::Finished);
}

#[test]
fn cleared_flag_ends_the_sequence_for_good() {
    let mut collector = FileCollector::collect_files(
        vec!["r".to_string()],
        Rules::everything(),
        ChangeCache::new(),
    );
    assert_eq!(collector.poll(true), Poll::List("r".to_string()));
    collector.supply(vec![file("r/a", 1, 1), file("r/b", 1, 1)]);
    assert_eq!(collector.poll(true), Poll::Item(Ok(descriptor("r/a", 1, 1))));
    assert_eq!(collector.poll(false), Poll::Finished);
    assert_eq!(collector.poll(true), Poll::Finished);
    let cache = collector.into_cache();
    assert_eq!(cache.lookup("r/a"), Some(1));
    assert_eq!(cache.lookup("r/b"), None);
}

#[test]
fn examine_decides_one_candidate() {
    let mut cache = ChangeCache::new();
    cache.record("old", 5);
    let mut collector = FileCollector::collect_files(Vec::new(), Rules::everything(), cache);
    assert_eq!(collector.examine(file("old", 5, 1)), None);
    assert_eq!(collector.examine(file("old", 6, 1)), Some(Ok(descriptor("old", 6, 1))));
    assert_eq!(collector.examine(file("old", 6, 1)), None);
    assert_eq!(
        collector.examine(broken("bad", Fault::Other)),
        Some(Err(CollectorError { path: "bad".to_string(), fault: Fault::Other }))
    );
    assert_eq!(collector.examine(dir("d")), None);
    assert_eq!(collector.poll(true), Poll::List("d".to_string()));
}
