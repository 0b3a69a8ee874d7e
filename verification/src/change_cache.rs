//! The change cache: for every file seen so far, the latest modification
//! time observed for it. It is the sole authority on whether a file has
//! changed since it was last queued for indexing.

use vstd::hash_map::StringHashMap;
use vstd::prelude::*;

verus! {

/// One tracked file: its identity and the latest modification time
/// observed for it.
pub struct ChangeRecord {
    pub path: String,
    pub last_modified: u64,
}

/// The model of one record: the path's characters and the timestamp.
pub type Entry = (Seq<char>, u64);

/// Whether some entry of `entries` is about `path`.
pub open spec fn tracks(entries: Seq<Entry>, path: Seq<char>) -> bool {
    exists|i: int| 0 <= i < entries.len() && (#[trigger] entries[i]).0 == path
}

/// The position of an entry about `path`, where there is one.
pub open spec fn position(entries: Seq<Entry>, path: Seq<char>) -> int {
    choose|i: int| 0 <= i < entries.len() && (#[trigger] entries[i]).0 == path
}

/// No two entries are about the same path.
pub open spec fn distinct_paths(entries: Seq<Entry>) -> bool {
    forall|i: int, j: int|
        0 <= i < j < entries.len() ==> (#[trigger] entries[i]).0 != (#[trigger] entries[j]).0
}

/// The mapping from path to timestamp that a list of entries stands for.
pub open spec fn as_map(entries: Seq<Entry>) -> Map<Seq<char>, u64> {
    Map::new(|p: Seq<char>| tracks(entries, p), |p: Seq<char>| entries[position(entries, p)].1)
}

/// The later of two timestamps.
pub open spec fn later(a: u64, b: u64) -> u64 {
    if a >= b {
        a
    } else {
        b
    }
}

/// What recording `(path, timestamp)` does to a list of entries: a tracked
/// path keeps its place and takes the later of the two timestamps, an
/// untracked one is appended.
pub open spec fn recorded(entries: Seq<Entry>, path: Seq<char>, timestamp: u64) -> Seq<Entry> {
    if tracks(entries, path) {
        let i = position(entries, path);
        entries.update(i, (path, later(entries[i].1, timestamp)))
    } else {
        entries.push((path, timestamp))
    }
}

/// With distinct paths, the position of a path is the one place it occurs.
pub proof fn lemma_position_unique(entries: Seq<Entry>, i: int)
    requires
        distinct_paths(entries),
        0 <= i < entries.len(),
    ensures
        tracks(entries, entries[i].0),
        position(entries, entries[i].0) == i,
        as_map(entries).contains_key(entries[i].0),
        as_map(entries)[entries[i].0] == entries[i].1,
{
}

/// Recording keeps paths distinct and acts on the mapping as an insertion
/// of the later timestamp.
pub proof fn lemma_recorded(entries: Seq<Entry>, path: Seq<char>, timestamp: u64)
    requires
        distinct_paths(entries),
    ensures
        distinct_paths(recorded(entries, path, timestamp)),
        as_map(recorded(entries, path, timestamp)) == as_map(entries).insert(
            path,
            if tracks(entries, path) {
                later(as_map(entries)[path], timestamp)
            } else {
                timestamp
            },
        ),
{
    let after = recorded(entries, path, timestamp);
    let value = if tracks(entries, path) {
        later(as_map(entries)[path], timestamp)
    } else {
        timestamp
    };
    if tracks(entries, path) {
        assert forall|a: int, b: int| 0 <= a < b < after.len() implies (#[trigger] after[a]).0 != (
        #[trigger] after[b]).0 by {}
        assert forall|p: Seq<char>| tracks(after, p) == tracks(entries, p) by {
            if tracks(entries, p) {
                let k = position(entries, p);
                assert(after[k].0 == p);
            }
            if tracks(after, p) {
                assert(entries[position(after, p)].0 == p);
            }
        }
        assert forall|p: Seq<char>| tracks(after, p) implies as_map(after)[p] == as_map(
            entries,
        ).insert(path, value)[p] by {
            let k = position(after, p);
            lemma_position_unique(after, k);
            lemma_position_unique(entries, k);
        }
    } else {
        let n = entries.len() as int;
        assert(after[n].0 == path);
        assert forall|a: int, b: int| 0 <= a < b < after.len() implies (#[trigger] after[a]).0 != (
        #[trigger] after[b]).0 by {}
        assert forall|p: Seq<char>| tracks(after, p) == (tracks(entries, p) || p == path) by {
            if tracks(entries, p) {
                let k = position(entries, p);
                assert(after[k].0 == p);
            }
            if tracks(after, p) {
                let k = position(after, p);
                assert(k < n ==> entries[k].0 == p);
            }
        }
        assert forall|p: Seq<char>| tracks(after, p) implies as_map(after)[p] == as_map(
            entries,
        ).insert(path, value)[p] by {
            let k = position(after, p);
            lemma_position_unique(after, k);
            if k < n {
                lemma_position_unique(entries, k);
            }
        }
    }
}

/// The entries after a series of recordings, first to last.
pub open spec fn recorded_all(entries: Seq<Entry>, updates: Seq<Entry>) -> Seq<Entry>
    decreases updates.len(),
{
    if updates.len() == 0 {
        entries
    } else {
        recorded(recorded_all(entries, updates.drop_last()), updates.last().0, updates.last().1)
    }
}

/// The cache is monotonic: after any series of recordings, the timestamp
/// held for a path is the greatest that was ever recorded for it, the one
/// held before the series included. It is never an earlier one, and it is
/// always one that was in fact recorded.
pub proof fn lemma_recorded_all_is_maximum(entries: Seq<Entry>, updates: Seq<Entry>, path: Seq<char>)
    requires
        distinct_paths(entries),
    ensures
        distinct_paths(recorded_all(entries, updates)),
        ({
            let before = as_map(entries);
            let after = as_map(recorded_all(entries, updates));
            let mentioned = exists|i: int| 0 <= i < updates.len() && (#[trigger] updates[i]).0 == path;
            &&& after.contains_key(path) == (before.contains_key(path) || mentioned)
            &&& before.contains_key(path) ==> after[path] >= before[path]
            &&& forall|i: int|
                0 <= i < updates.len() && (#[trigger] updates[i]).0 == path ==> after[path]
                    >= updates[i].1
            &&& after.contains_key(path) ==> (before.contains_key(path) && after[path]
                == before[path]) || (exists|i: int|
                0 <= i < updates.len() && (#[trigger] updates[i]).0 == path && after[path]
                    == updates[i].1)
        }),
    decreases updates.len(),
{
    if updates.len() > 0 {
        let earlier = updates.drop_last();
        let last = updates.last();
        let mid = recorded_all(entries, earlier);
        lemma_recorded_all_is_maximum(entries, earlier, path);
        lemma_recorded(mid, last.0, last.1);
        let before = as_map(entries);
        let middle = as_map(mid);
        let after = as_map(recorded_all(entries, updates));
        assert forall|i: int| 0 <= i < earlier.len() implies earlier[i] == updates[i] by {}
        if exists|i: int| 0 <= i < earlier.len() && (#[trigger] earlier[i]).0 == path {
            let i = choose|i: int| 0 <= i < earlier.len() && (#[trigger] earlier[i]).0 == path;
            assert(updates[i].0 == path);
        }
        if middle.contains_key(path) && !(before.contains_key(path) && middle[path]
            == before[path]) {
            let i = choose|i: int|
                0 <= i < earlier.len() && (#[trigger] earlier[i]).0 == path && middle[path]
                    == earlier[i].1;
            assert(updates[i].0 == path && middle[path] == updates[i].1);
        }
        assert forall|i: int|
            0 <= i < updates.len() && (#[trigger] updates[i]).0 == path implies after[path]
                >= updates[i].1 by {}
    }
}

/// Mapping from file identity to last-observed modification time.
///
/// Records are kept in the order in which their paths were first seen;
/// a hash index over the paths makes lookups constant time on average.
pub struct ChangeCache {
    records: Vec<ChangeRecord>,
    index: StringHashMap<usize>,
}

impl ChangeCache {
    /// The records in first-seen order, as plain values.
    pub closed spec fn entries(&self) -> Seq<Entry> {
        Seq::new(
            self.records@.len(),
            |i: int| (self.records@[i].path@, self.records@[i].last_modified),
        )
    }

    /// The mapping from path to recorded timestamp.
    pub open spec fn view(&self) -> Map<Seq<char>, u64> {
        as_map(self.entries())
    }

    /// The index and the records describe the same set of paths, each
    /// path once.
    pub closed spec fn wf(&self) -> bool {
        &&& self.index@.dom().finite()
        &&& self.index@.len() == self.records@.len()
        &&& forall|i: int|
            0 <= i < self.records@.len() ==> self.index@.contains_key(
                (#[trigger] self.records@[i]).path@,
            ) && self.index@[self.records@[i].path@] == i
        &&& forall|p: Seq<char>| #[trigger]
            self.index@.contains_key(p) ==> 0 <= self.index@[p] < self.records@.len()
                && self.records@[self.index@[p] as int].path@ == p
    }

    /// A well-formed cache never tracks a path twice.
    pub proof fn lemma_wf_distinct(&self)
        requires
            self.wf(),
        ensures
            distinct_paths(self.entries()),
    {
        let es = self.entries();
        assert forall|i: int, j: int| 0 <= i < j < es.len() implies (#[trigger] es[i]).0 != (
        #[trigger] es[j]).0 by {}
    }

    proof fn lemma_index_agrees(&self, p: Seq<char>)
        requires
            self.wf(),
        ensures
            self.index@.contains_key(p) == tracks(self.entries(), p),
            self.index@.contains_key(p) ==> position(self.entries(), p) == self.index@[p],
    {
        let es = self.entries();
        self.lemma_wf_distinct();
        if self.index@.contains_key(p) {
            let i = self.index@[p] as int;
            lemma_position_unique(es, i);
        }
    }

    /// An empty cache, as on a first run.
    pub fn new() -> (cache: Self)
        ensures
            cache.wf(),
            cache.entries() == Seq::<Entry>::empty(),
            cache@ == Map::<Seq<char>, u64>::empty(),
    {
        let cache = ChangeCache { records: Vec::new(), index: StringHashMap::new() };
        cache
    }

    /// The timestamp recorded for `path`, if the path is tracked.
    pub fn lookup(&self, path: &str) -> (found: Option<u64>)
        requires
            self.wf(),
        ensures
            found == if self@.contains_key(path@) {
                Some(self@[path@])
            } else {
                None
            },
    {
        proof {
            self.lemma_index_agrees(path@);
        }
        match self.index.get(path) {
            Some(slot) => {
                let i: usize = *slot;
                Some(self.records[i].last_modified)
            },
            None => None,
        }
    }

    /// Whether the cache already holds a timestamp for `path` that is equal
    /// to or later than `modified`: the file has not changed since it was
    /// last queued.
    pub fn is_current(&self, path: &str, modified: u64) -> (current: bool)
        requires
            self.wf(),
        ensures
            current == (self@.contains_key(path@) && self@[path@] >= modified),
    {
        match self.lookup(path) {
            Some(seen) => seen >= modified,
            None => false,
        }
    }

    /// Number of tracked paths.
    pub fn len(&self) -> (n: usize)
        requires
            self.wf(),
        ensures
            n == self.entries().len(),
            n == self@.dom().len(),
    {
        proof {
            assert(self@.dom() =~= self.index@.dom()) by {
                assert forall|p: Seq<char>| self@.dom().contains(p) == self.index@.dom().contains(
                    p,
                ) by {
                    self.lemma_index_agrees(p);
                }
            }
        }
        self.records.len()
    }

    /// Records that `path` was observed with modification time
    /// `timestamp`. An untracked path is added; a tracked one keeps the
    /// later of its recorded timestamp and `timestamp`, so a recorded
    /// timestamp never moves backward.
    pub fn record(&mut self, path: &str, timestamp: u64)
        requires
            old(self).wf(),
        ensures
            final(self).wf(),
            final(self).entries() == recorded(old(self).entries(), path@, timestamp),
            final(self)@ == old(self)@.insert(
                path@,
                if old(self)@.contains_key(path@) {
                    later(old(self)@[path@], timestamp)
                } else {
                    timestamp
                },
            ),
    {
        proof {
            self.lemma_index_agrees(path@);
            self.lemma_wf_distinct();
            lemma_recorded(self.entries(), path@, timestamp);
        }
        let slot: Option<usize> = match self.index.get(path) {
            Some(slot) => Some(*slot),
            None => None,
        };
        match slot {
            Some(i) => {
                if self.records[i].last_modified < timestamp {
                    let path_copy: String = self.records[i].path.clone();
                    self.records.set(i, ChangeRecord { path: path_copy, last_modified: timestamp });
                }
                proof {
                    assert(self.entries() =~= recorded(old(self).entries(), path@, timestamp));
                }
            },
            None => {
                let n: usize = self.records.len();
                self.records.push(ChangeRecord { path: path.to_owned(), last_modified: timestamp });
                self.index.insert(path.to_owned(), n);
                proof {
                    assert(self.entries() =~= recorded(old(self).entries(), path@, timestamp));
                }
            },
        }
    }

    /// The record at position `i`, which is known to exist.
    pub(crate) fn record_at(&self, i: usize) -> (record: &ChangeRecord)
        requires
            i < self.entries().len(),
        ensures
            (record.path@, record.last_modified) == self.entries()[i as int],
    {
        &self.records[i]
    }

    /// The record at position `i`, in first-seen order, if there are that
    /// many.
    pub fn get(&self, i: usize) -> (record: Option<&ChangeRecord>)
        ensures
            record is Some == (i < self.entries().len()),
            record matches Some(r) ==> (r.path@, r.last_modified) == self.entries()[i as int],
    {
        if i < self.records.len() {
            Some(&self.records[i])
        } else {
            None
        }
    }
}

} // verus!
