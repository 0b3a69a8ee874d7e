//! The file collector: a single-pass, lazy sequence of the files that need
//! (re)indexing.
//!
//! The collector decides; its caller touches the file system. Each call of
//! [`FileCollector::poll`] either produces the next item, asks for the
//! entries of one directory, or ends the sequence. Entries that were
//! observed are handed in with [`FileCollector::supply`]. Directories are
//! listed last in, first out; entries are examined in the order supplied.
//!
//! A directory that cannot be listed, a configured root that does not exist
//! included, is supplied as one entry with a failed probe and so becomes a
//! single `Err` item.

use crate::change_cache::{recorded, ChangeCache, Entry};
use crate::rules::{Rules, RulesModel};
use vstd::prelude::*;
use vstd::utf8::encode_utf8;

verus! {

/// Why one entry could not be examined.
#[derive(Debug, Clone, Copy, PartialEq, Eq, Structural)]
pub enum Fault {
    PermissionDenied,
    Vanished,
    BrokenLink,
    Other,
}

/// What kind of entry was observed.
#[derive(Debug, Clone, Copy, PartialEq, Eq, Structural)]
pub enum EntryKind {
    File,
    Directory,
}

/// What was observed of an entry that could be examined.
#[derive(Debug, Clone, Copy, PartialEq, Eq, Structural)]
pub struct Probe {
    pub kind: EntryKind,
    pub modified: u64,
    pub size: u64,
}

/// One observed directory entry.
#[derive(Debug, PartialEq, Eq)]
pub struct Candidate {
    pub path: String,
    pub probe: Result<Probe, Fault>,
}

/// A candidate as plain values.
pub struct CandidateModel {
    pub path: Seq<char>,
    pub probe: Result<Probe, Fault>,
}

impl View for Candidate {
    type V = CandidateModel;

    open spec fn view(&self) -> CandidateModel {
        CandidateModel { path: self.path@, probe: self.probe }
    }
}

/// A file that needs (re)indexing.
#[derive(Debug, Clone, PartialEq, Eq)]
pub struct FileDescriptor {
    pub path: String,
    pub modified: u64,
    pub size: u64,
}

/// A file descriptor as plain values.
pub struct DescriptorModel {
    pub path: Seq<char>,
    pub modified: u64,
    pub size: u64,
}

impl View for FileDescriptor {
    type V = DescriptorModel;

    open spec fn view(&self) -> DescriptorModel {
        DescriptorModel { path: self.path@, modified: self.modified, size: self.size }
    }
}

/// A per-file discovery fault. It concerns one entry only.
#[derive(Debug, Clone, PartialEq, Eq)]
pub struct CollectorError {
    pub path: String,
    pub fault: Fault,
}

/// A collector error as plain values.
pub struct CollectorErrorModel {
    pub path: Seq<char>,
    pub fault: Fault,
}

impl View for CollectorError {
    type V = CollectorErrorModel;

    open spec fn view(&self) -> CollectorErrorModel {
        CollectorErrorModel { path: self.path@, fault: self.fault }
    }
}

/// What one call of `poll` produced.
#[derive(Debug, PartialEq, Eq)]
pub enum Poll {
    /// The next item of the sequence.
    Item(Result<FileDescriptor, CollectorError>),
    /// The entries of this directory are wanted; hand them to `supply`.
    List(String),
    /// The sequence has ended, and stays ended.
    Finished,
}

/// The result of `poll` as plain values.
pub enum PollModel {
    Item(Result<DescriptorModel, CollectorErrorModel>),
    List(Seq<char>),
    Finished,
}

impl View for Poll {
    type V = PollModel;

    open spec fn view(&self) -> PollModel {
        match self {
            Poll::Item(Ok(file)) => PollModel::Item(Ok(file@)),
            Poll::Item(Err(error)) => PollModel::Item(Err(error@)),
            Poll::List(dir) => PollModel::List(dir@),
            Poll::Finished => PollModel::Finished,
        }
    }
}

/// What the collector makes of one candidate.
pub enum Verdict {
    /// The entry could not be examined: an `Err` item.
    Faulty(Fault),
    /// A directory to list later.
    Descend,
    /// A directory ruled out.
    Pruned,
    /// A file that the rules do not accept.
    Filtered,
    /// A file whose recorded timestamp is equal or newer.
    Unchanged,
    /// A file to (re)index: an `Ok` item.
    Fresh,
}

/// The cache holds an equal-or-newer timestamp for the path.
pub open spec fn is_current(cache: Map<Seq<char>, u64>, path: Seq<char>, modified: u64) -> bool {
    cache.contains_key(path) && cache[path] >= modified
}

/// The decision for one candidate.
pub open spec fn verdict(cache: Map<Seq<char>, u64>, rules: RulesModel, c: CandidateModel) -> Verdict {
    match c.probe {
        Err(fault) => Verdict::Faulty(fault),
        Ok(probe) => match probe.kind {
            EntryKind::Directory => if rules.excludes(encode_utf8(c.path)) {
                Verdict::Pruned
            } else {
                Verdict::Descend
            },
            EntryKind::File => if !rules.accepts(encode_utf8(c.path)) {
                Verdict::Filtered
            } else if is_current(cache, c.path, probe.modified) {
                Verdict::Unchanged
            } else {
                Verdict::Fresh
            },
        },
    }
}

/// The state of a walk as plain values.
pub struct Walk {
    /// Recorded timestamps.
    pub cache: Map<Seq<char>, u64>,
    /// Directories still to list; the last is listed next.
    pub dirs: Seq<Seq<char>>,
    /// Entries observed and not yet examined; the first is examined next.
    pub todo: Seq<CandidateModel>,
    /// The sequence has ended.
    pub done: bool,
}

/// An item of the sequence as plain values.
pub type ItemModel = Result<DescriptorModel, CollectorErrorModel>;

/// An item of the sequence, as plain values.
pub open spec fn item_model(item: Result<FileDescriptor, CollectorError>) -> ItemModel {
    match item {
        Ok(file) => Ok(file@),
        Err(error) => Err(error@),
    }
}

/// What examining one candidate does to the walk, and the item that it
/// makes, if any. A faulty candidate makes an `Err` item and changes
/// nothing. A fresh file makes an `Ok` item and has its timestamp
/// recorded at that moment. A directory that is not pruned is noted for
/// listing. Everything else is passed over.
pub open spec fn examined(w: Walk, rules: RulesModel, c: CandidateModel) -> (Walk, Option<ItemModel>) {
    match verdict(w.cache, rules, c) {
        Verdict::Faulty(fault) => (w, Some(Err(CollectorErrorModel { path: c.path, fault }))),
        Verdict::Fresh => (
            Walk { cache: w.cache.insert(c.path, c.probe->Ok_0.modified), ..w },
            Some(
                Ok(
                    DescriptorModel {
                        path: c.path,
                        modified: c.probe->Ok_0.modified,
                        size: c.probe->Ok_0.size,
                    },
                ),
            ),
        ),
        Verdict::Descend => (Walk { dirs: w.dirs.push(c.path), ..w }, None),
        _ => (w, None),
    }
}

/// One call of `poll` while the running flag is set: candidates are
/// examined in order until one of them makes an item; when none is left,
/// the next directory is asked for, and when no directory is left either,
/// the walk ends.
pub open spec fn advance(w: Walk, rules: RulesModel) -> (Walk, PollModel)
    decreases w.todo.len(),
{
    if w.done {
        (w, PollModel::Finished)
    } else if w.todo.len() == 0 {
        if w.dirs.len() == 0 {
            (Walk { done: true, ..w }, PollModel::Finished)
        } else {
            (Walk { dirs: w.dirs.drop_last(), ..w }, PollModel::List(w.dirs.last()))
        }
    } else {
        let (next, item) = examined(Walk { todo: w.todo.drop_first(), ..w }, rules, w.todo[0]);
        match item {
            Some(item) => (next, PollModel::Item(item)),
            None => advance(next, rules),
        }
    }
}

/// Every timestamp of `older` is still held by `newer`, or a later one in
/// its place.
pub open spec fn dominates(newer: Map<Seq<char>, u64>, older: Map<Seq<char>, u64>) -> bool {
    forall|p: Seq<char>| #[trigger]
        older.contains_key(p) ==> newer.contains_key(p) && newer[p] >= older[p]
}

/// Examining a candidate never takes a timestamp back: the cache is
/// updated only by a fresh file, and then to a timestamp that is later
/// than the one held.
pub proof fn lemma_examined_cache_grows(w: Walk, rules: RulesModel, c: CandidateModel)
    ensures
        dominates(examined(w, rules, c).0.cache, w.cache),
{
}

/// A call of `poll` never takes a timestamp back.
pub proof fn lemma_advance_cache_grows(w: Walk, rules: RulesModel)
    ensures
        dominates(advance(w, rules).0.cache, w.cache),
    decreases w.todo.len(),
{
    if !w.done && w.todo.len() > 0 {
        let rest = Walk { todo: w.todo.drop_first(), ..w };
        let (next, item) = examined(rest, rules, w.todo[0]);
        lemma_examined_cache_grows(rest, rules, w.todo[0]);
        if item is None {
            lemma_advance_cache_grows(next, rules);
        }
    }
}

/// What is yielded was not current, and is current from then on: the
/// timestamp is recorded at discovery, before the descriptor is handed on.
pub proof fn lemma_advance_yields_changed(w: Walk, rules: RulesModel)
    ensures
        advance(w, rules).1 matches PollModel::Item(Ok(file)) ==> !is_current(
            w.cache,
            file.path,
            file.modified,
        ) && is_current(advance(w, rules).0.cache, file.path, file.modified),
    decreases w.todo.len(),
{
    if !w.done && w.todo.len() > 0 {
        let rest = Walk { todo: w.todo.drop_first(), ..w };
        let (next, item) = examined(rest, rules, w.todo[0]);
        if item is None {
            lemma_advance_yields_changed(next, rules);
        }
    }
}

/// Change detection is idempotent. Suppose one run yields a file, and a
/// later run starts from a cache that holds at least what the first run
/// recorded, as it does after the cache was persisted and loaded again.
/// Then a candidate for the same path whose modification time is
/// unchanged is not yielded: neither when it is examined, nor by any call
/// of `poll` however the entries are arranged.
pub proof fn lemma_unchanged_file_is_skipped(
    first: Walk,
    first_rules: RulesModel,
    seen: CandidateModel,
    second: Walk,
    second_rules: RulesModel,
    again: CandidateModel,
)
    requires
        examined(first, first_rules, seen).1 matches Some(Ok(_)),
        dominates(second.cache, examined(first, first_rules, seen).0.cache),
        again.path == seen.path,
        again.probe matches Ok(probe) && probe.modified == seen.probe->Ok_0.modified,
    ensures
        !(examined(second, second_rules, again).1 matches Some(Ok(_))),
        !(advance(second, second_rules).1 matches PollModel::Item(Ok(file)) && file.path
            == again.path && file.modified == again.probe->Ok_0.modified),
{
    let recorded = examined(first, first_rules, seen).0.cache;
    assert(recorded.contains_key(seen.path));
    lemma_advance_yields_changed(second, second_rules);
}

/// Faults are isolated. A candidate that could not be examined makes
/// exactly one `Err` item, and nothing else happens: the cache, the
/// directories and the entries still waiting are as they were, and the
/// sequence has not ended.
pub proof fn lemma_fault_is_isolated(w: Walk, rules: RulesModel, fault: Fault)
    requires
        !w.done,
        w.todo.len() > 0,
        w.todo[0].probe == Err::<Probe, Fault>(fault),
    ensures
        advance(w, rules) == (
            Walk { todo: w.todo.drop_first(), ..w },
            PollModel::Item(Err(CollectorErrorModel { path: w.todo[0].path, fault })),
        ),
{
}

/// The items that the entries now waiting make, in order, if they are
/// examined to the last.
pub open spec fn yielded(w: Walk, rules: RulesModel) -> Seq<ItemModel>
    decreases w.todo.len(),
{
    if w.todo.len() == 0 {
        Seq::empty()
    } else {
        let (next, item) = examined(Walk { todo: w.todo.drop_first(), ..w }, rules, w.todo[0]);
        match item {
            Some(item) => seq![item] + yielded(next, rules),
            None => yielded(next, rules),
        }
    }
}

/// Polling goes through `yielded` one item at a time: while items are to
/// come, a call of `poll` produces the first of them and leaves the rest
/// to come.
pub proof fn lemma_poll_takes_first_yielded(w: Walk, rules: RulesModel)
    requires
        !w.done,
        yielded(w, rules).len() > 0,
    ensures
        advance(w, rules).1 == PollModel::Item(yielded(w, rules)[0]),
        yielded(advance(w, rules).0, rules) == yielded(w, rules).drop_first(),
        !advance(w, rules).0.done,
    decreases w.todo.len(),
{
    let (next, item) = examined(Walk { todo: w.todo.drop_first(), ..w }, rules, w.todo[0]);
    match item {
        Some(item) => {
        },
        None => {
            lemma_poll_takes_first_yielded(next, rules);
        },
    }
}

/// A candidate that is either an entry that could not be examined or a
/// file that the rules accept.
pub open spec fn faulty_or_wanted(rules: RulesModel, c: CandidateModel) -> bool {
    match c.probe {
        Err(_) => true,
        Ok(probe) => probe.kind == EntryKind::File && rules.accepts(encode_utf8(c.path)),
    }
}

/// One item per candidate, and no early end. Take entries that are each
/// either faulty or a wanted file, where the files have paths of their own
/// and are not current in the cache. Then the sequence has exactly one
/// item for each entry, in the order of the entries: an `Err` for each
/// faulty one, an `Ok` for each file. A fault among the entries changes
/// nothing for the others.
pub proof fn lemma_one_item_per_candidate(w: Walk, rules: RulesModel)
    requires
        forall|i: int| 0 <= i < w.todo.len() ==> faulty_or_wanted(rules, #[trigger] w.todo[i]),
        forall|i: int|
            0 <= i < w.todo.len() && (#[trigger] w.todo[i]).probe is Ok ==> !is_current(
                w.cache,
                w.todo[i].path,
                w.todo[i].probe->Ok_0.modified,
            ),
        forall|i: int, j: int|
            0 <= i < j < w.todo.len() && (#[trigger] w.todo[i]).probe is Ok && (
            #[trigger] w.todo[j]).probe is Ok ==> w.todo[i].path != w.todo[j].path,
    ensures
        yielded(w, rules).len() == w.todo.len(),
        forall|i: int|
            0 <= i < w.todo.len() ==> match (#[trigger] w.todo[i]).probe {
                Err(fault) => yielded(w, rules)[i] == Err::<DescriptorModel, CollectorErrorModel>(
                    CollectorErrorModel { path: w.todo[i].path, fault },
                ),
                Ok(probe) => yielded(w, rules)[i] == Ok::<DescriptorModel, CollectorErrorModel>(
                    DescriptorModel {
                        path: w.todo[i].path,
                        modified: probe.modified,
                        size: probe.size,
                    },
                ),
            },
    decreases w.todo.len(),
{
    if w.todo.len() > 0 {
        let first = w.todo[0];
        let rest = Walk { todo: w.todo.drop_first(), ..w };
        let (next, item) = examined(rest, rules, first);
        assert forall|i: int| 0 <= i < next.todo.len() implies faulty_or_wanted(
            rules,
            #[trigger] next.todo[i],
        ) by {}
        assert forall|i: int|
            0 <= i < next.todo.len() && (#[trigger] next.todo[i]).probe is Ok implies !is_current(
            next.cache,
            next.todo[i].path,
            next.todo[i].probe->Ok_0.modified,
        ) by {}
        assert forall|i: int, j: int|
            0 <= i < j < next.todo.len() && (#[trigger] next.todo[i]).probe is Ok && (
            #[trigger] next.todo[j]).probe is Ok implies next.todo[i].path != next.todo[j].path by {}
        lemma_one_item_per_candidate(next, rules);
        let all = yielded(w, rules);
        assert forall|i: int| 0 <= i < w.todo.len() implies match (#[trigger] w.todo[i]).probe {
            Err(fault) => all[i] == Err::<DescriptorModel, CollectorErrorModel>(
                CollectorErrorModel { path: w.todo[i].path, fault },
            ),
            Ok(probe) => all[i] == Ok::<DescriptorModel, CollectorErrorModel>(
                DescriptorModel { path: w.todo[i].path, modified: probe.modified, size: probe.size },
            ),
        } by {
            if i > 0 {
                assert(w.todo[i] == next.todo[i - 1]);
            }
        }
    }
}

/// The views of a list of candidates, from `from` on.
pub open spec fn models_from(list: Seq<Candidate>, from: int) -> Seq<CandidateModel> {
    Seq::new((list.len() - from) as nat, |i: int| list[from + i]@)
}

/// The views of a list of candidates.
pub open spec fn models(list: Seq<Candidate>) -> Seq<CandidateModel> {
    models_from(list, 0)
}

/// The characters of a list of paths.
pub open spec fn paths(list: Seq<String>) -> Seq<Seq<char>> {
    Seq::new(list.len(), |i: int| list[i]@)
}

/// The lazy sequence of files to (re)index.
pub struct FileCollector {
    cache: ChangeCache,
    rules: Rules,
    dirs: Vec<String>,
    pending: Vec<Candidate>,
    cursor: usize,
    done: bool,
}

impl FileCollector {
    /// The invariant of the collector.
    pub closed spec fn wf(&self) -> bool {
        self.cache.wf() && self.cursor <= self.pending@.len()
    }

    /// The state of the walk.
    pub closed spec fn view(&self) -> Walk {
        Walk {
            cache: self.cache@,
            dirs: paths(self.dirs@),
            todo: models_from(self.pending@, self.cursor as int),
            done: self.done,
        }
    }

    /// The rules that the walk applies.
    pub closed spec fn rules(&self) -> RulesModel {
        self.rules@
    }

    /// The cache entries in first-seen order.
    pub closed spec fn cache_entries(&self) -> Seq<Entry> {
        self.cache.entries()
    }

    /// Starts a walk of `roots` under `rules`, skipping what `cache` says
    /// is unchanged.
    pub fn collect_files(roots: Vec<String>, rules: Rules, cache: ChangeCache) -> (collector: Self)
        requires
            cache.wf(),
        ensures
            collector.wf(),
            collector.rules() == rules@,
            collector@ == (Walk {
                cache: cache@,
                dirs: paths(roots@),
                todo: Seq::<CandidateModel>::empty(),
                done: false,
            }),
            collector.cache_entries() == cache.entries(),
    {
        let collector = FileCollector {
            cache,
            rules,
            dirs: roots,
            pending: Vec::new(),
            cursor: 0,
            done: false,
        };
        proof {
            assert(collector@.todo =~= Seq::<CandidateModel>::empty());
        }
        collector
    }

    /// Hands in entries that were observed, to be examined after those
    /// already waiting.
    pub fn supply(&mut self, entries: Vec<Candidate>)
        requires
            old(self).wf(),
        ensures
            final(self).wf(),
            final(self).rules() == old(self).rules(),
            final(self).cache_entries() == old(self).cache_entries(),
            final(self)@ == (Walk { todo: old(self)@.todo + models(entries@), ..old(self)@ }),
    {
        let mut batch = entries;
        self.pending.append(&mut batch);
        proof {
            assert(self@.todo =~= old(self)@.todo + models(entries@));
        }
    }

    /// Examines one candidate, outside of the sequence that `poll` makes:
    /// the candidate does not wait behind the entries that were supplied,
    /// and the running flag is not consulted.
    pub fn examine(&mut self, candidate: Candidate) -> (item: Option<
        Result<FileDescriptor, CollectorError>,
    >)
        requires
            old(self).wf(),
        ensures
            final(self).wf(),
            final(self).rules() == old(self).rules(),
            final(self)@ == examined(old(self)@, old(self).rules(), candidate@).0,
            match item {
                Some(item) => Some(item_model(item)),
                None => None,
            } == examined(old(self)@, old(self).rules(), candidate@).1,
            final(self).cache_entries() == if verdict(
                old(self)@.cache,
                old(self).rules(),
                candidate@,
            ) is Fresh {
                recorded(
                    old(self).cache_entries(),
                    candidate@.path,
                    candidate@.probe->Ok_0.modified,
                )
            } else {
                old(self).cache_entries()
            },
    {
        let Candidate { path, probe } = candidate;
        match probe {
            Err(fault) => Some(Err(CollectorError { path, fault })),
            Ok(seen) => {
                match seen.kind {
                    EntryKind::Directory => {
                        if !self.rules.excludes(path.as_str().as_bytes()) {
                            self.dirs.push(path);
                            proof {
                                assert(self@.dirs =~= old(self)@.dirs.push(candidate@.path));
                            }
                        }
                        None
                    },
                    EntryKind::File => {
                        if self.rules.accepts(path.as_str().as_bytes()) && !self.cache.is_current(
                            path.as_str(),
                            seen.modified,
                        ) {
                            self.cache.record(path.as_str(), seen.modified);
                            Some(
                                Ok(
                                    FileDescriptor {
                                        path,
                                        modified: seen.modified,
                                        size: seen.size,
                                    },
                                ),
                            )
                        } else {
                            None
                        }
                    },
                }
            },
        }
    }

    /// Produces the next item, or says what is needed to go on.
    ///
    /// `running` is the running flag as read just before the call. Once it
    /// is read as false the sequence ends for good; entries that were
    /// supplied and not yet examined are left unexamined.
    pub fn poll(&mut self, running: bool) -> (produced: Poll)
        requires
            old(self).wf(),
        ensures
            final(self).wf(),
            final(self).rules() == old(self).rules(),
            running ==> (final(self)@, produced@) == advance(old(self)@, old(self).rules()),
            !running ==> final(self)@ == (Walk { done: true, ..old(self)@ }) && produced
                == Poll::Finished,
            final(self).cache_entries() == match produced@ {
                PollModel::Item(Ok(file)) => recorded(
                    old(self).cache_entries(),
                    file.path,
                    file.modified,
                ),
                _ => old(self).cache_entries(),
            },
    {
        if !running || self.done {
            self.done = true;
            return Poll::Finished;
        }
        loop
            invariant
                running,
                self.wf(),
                !self.done,
                self.rules() == old(self).rules(),
                self.cache_entries() == old(self).cache_entries(),
                advance(self@, self.rules()) == advance(old(self)@, old(self).rules()),
            decreases self.pending@.len() - self.cursor,
        {
            let ghost before = self@;
            if self.cursor >= self.pending.len() {
                self.pending.clear();
                self.cursor = 0;
                proof {
                    assert(self@.todo =~= before.todo);
                }
                match self.dirs.pop() {
                    Some(dir) => {
                        proof {
                            assert(self@.dirs =~= before.dirs.drop_last());
                        }
                        return Poll::List(dir);
                    },
                    None => {
                        self.done = true;
                        return Poll::Finished;
                    },
                }
            }
            let candidate = Candidate {
                path: self.pending[self.cursor].path.clone(),
                probe: self.pending[self.cursor].probe,
            };
            self.cursor = self.cursor + 1;
            proof {
                assert(self@.todo =~= before.todo.drop_first());
            }
            match self.examine(candidate) {
                Some(item) => {
                    return Poll::Item(item);
                },
                None => {},
            }
        }
    }

    /// Whether the sequence has ended.
    pub fn is_finished(&self) -> (r: bool)
        ensures
            r == self@.done,
    {
        self.done
    }

    /// The cache as the walk has updated it so far.
    pub fn cache(&self) -> (cache: &ChangeCache)
        requires
            self.wf(),
        ensures
            cache.wf(),
            cache@ == self@.cache,
            cache.entries() == self.cache_entries(),
    {
        &self.cache
    }

    /// Ends the walk and gives the cache back, to be persisted.
    pub fn into_cache(self) -> (cache: ChangeCache)
        requires
            self.wf(),
        ensures
            cache.wf(),
            cache@ == self@.cache,
            cache.entries() == self.cache_entries(),
    {
        self.cache
    }
}

} // verus!
