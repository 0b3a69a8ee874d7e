use sids::once_every::OnceEvery;
use sids::running::{Progress, RunningFlag};
use sids::tally::Tally;

#[test]
fn flag_starts_running_and_stops_once() {
    let mut flag = RunningFlag::new();
    assert!(flag.is_running());
    assert!(flag.stop());
    assert!(!flag.is_running());
    assert!(!flag.stop());
    assert!(!flag.is_running());
}

#[test]
fn progress_counts_from_its_seed() {
    let mut progress = Progress::starting_at(5);
    assert_eq!(progress.indexed_files(), 5);
    progress.increment();
    progress.increment();
    assert_eq!(progress.indexed_files(), 7);
}

#[test]
fn progress_stops_at_the_top() {
    let mut progress = Progress::starting_at(usize::MAX - 1);
    progress.increment();
    assert_eq!(progress.indexed_files(), usize::MAX);
    progress.increment();
    assert_eq!(progress.indexed_files(), usize::MAX);
}

#[test]
fn tally_adds_and_saturates() {
    let mut tally = Tally::new();
    assert_eq!(tally.get(), 0);
    tally.add(3);
    tally.add(4);
    assert_eq!(tally.get(), 7);
    tally.add(usize::MAX);
    tally.add(usize::MAX);
    assert_eq!(tally.get(), u64::MAX);
}

#[test]
fn once_every_waits_for_the_interval() {
    let mut limiter = OnceEvery::new(10, 100);
    assert!(!limiter.is_due(100));
    assert!(!limiter.is_due(109));
    assert!(limiter.is_due(110));
    assert!(!limiter.fire(105));
    assert!(limiter.fire(110));
    assert!(!limiter.fire(119));
    assert!(limiter.fire(120));
}

#[test]
fn once_every_fires_when_the_clock_went_back() {
    let mut limiter = OnceEvery::new(10, 100);
    assert!(limiter.is_due(99));
    assert!(limiter.fire(50));
    assert!(!limiter.fire(59));
    assert!(limiter.fire(60));
}

#[test]
fn once_every_with_zero_interval_is_always_due() {
    let mut limiter = OnceEvery::new(0, 7);
    assert!(limiter.fire(7));
    assert!(limiter.fire(7));
    limiter.mark(9);
    assert!(limiter.is_due(9));
}
