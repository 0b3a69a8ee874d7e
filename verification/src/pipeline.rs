//! The pipeline: discovery, queue, workers' reports and commits as one state
//! machine.
//!
//! The pipeline decides and keeps the books; its caller does everything
//! that takes time. The discovery loop calls [`Pipeline::step`] and does
//! what the returned [`Action`] says, until [`Pipeline::stop`] clears the
//! running flag or there is nothing more to discover. Workers call [`Pipeline::next_job`],
//! read and extract on their own, and report with
//! [`Pipeline::complete_job`]. Whoever writes the index to storage calls
//! [`Pipeline::commit`] when [`Pipeline::commit_due`] says so, and
//! [`Pipeline::finish`] at the end. Callers on several threads take turns
//! on the one value, which keeps every mutation of the index sequential.

use crate::change_cache::{recorded, ChangeCache, Entry};
use crate::document::{doc_models, Document, ExtractionError, IndexRequest};
use crate::file_collector::{
    advance, dominates, is_current, lemma_advance_cache_grows, lemma_advance_yields_changed,
    models, Candidate, DescriptorModel, FileCollector, Poll, PollModel, Walk,
};
use crate::index::Index;
use crate::indexer::{
    outcome_model, Completion, Dequeue, DocIndexer, IndexerConfig, IndexerError, IndexerModel,
    Rejected, RejectedModel, Summary,
};
use crate::rules::{Rules, RulesModel};
use crate::running::{Progress, RunningFlag};
use crate::tally::{shown, Tally};
use vstd::prelude::*;

verus! {

/// What the discovery loop is to do next.
#[derive(Debug, PartialEq, Eq)]
pub enum Action {
    /// List this directory, hand its entries to `supply`, and step again.
    List(String),
    /// The queue is full. Wait until a worker has taken a job, then step
    /// again: the request that did not fit is offered once more.
    Wait,
    /// Step again.
    Continue,
    /// Discovery is over and the queue is closed. Wait for the workers to
    /// drain the queue, then call `finish`.
    Drain,
    /// The indexer failed for good. Discovery is over.
    Fatal(IndexerError),
}

/// An action as plain values.
pub enum ActionModel {
    List(Seq<char>),
    Wait,
    Continue,
    Drain,
    Fatal(IndexerError),
}

impl View for Action {
    type V = ActionModel;

    open spec fn view(&self) -> ActionModel {
        match self {
            Action::List(dir) => ActionModel::List(dir@),
            Action::Wait => ActionModel::Wait,
            Action::Continue => ActionModel::Continue,
            Action::Drain => ActionModel::Drain,
            Action::Fatal(e) => ActionModel::Fatal(*e),
        }
    }
}

/// The pipeline as plain values.
pub struct PipelineModel {
    /// The running flag: set at the start, cleared once, never set again.
    pub running: bool,
    /// The state of the walk.
    pub walk: Walk,
    /// The rules of the walk.
    pub rules: RulesModel,
    /// The document indexer.
    pub indexer: IndexerModel,
    /// The indexed-file counter.
    pub progress: nat,
    /// Discovery faults met so far.
    pub faults: nat,
    /// A request that found the queue full and waits to be offered again.
    pub parked: Option<DescriptorModel>,
    /// Discovery has ended and the queue is closed.
    pub discovery_over: bool,
}

/// The indexed-file counter after one more file.
pub open spec fn bumped(progress: nat) -> nat {
    if progress < usize::MAX {
        progress + 1
    } else {
        progress
    }
}

impl PipelineModel {
    /// A pipeline that has not taken a step: the walk is about to list the
    /// roots, nothing is parked, no fault was met, and the indexed-file
    /// counter shows the number of files that the cache tracks.
    pub open spec fn initial(
        cache: Map<Seq<char>, u64>,
        known: nat,
        roots: Seq<Seq<char>>,
        rules: RulesModel,
        indexer: IndexerModel,
    ) -> PipelineModel {
        PipelineModel {
            running: true,
            walk: Walk { cache, dirs: roots, todo: Seq::empty(), done: false },
            rules,
            indexer,
            progress: known,
            faults: 0,
            parked: None,
            discovery_over: false,
        }
    }

    /// Discovery ends: the walk is over and the queue is closed.
    pub open spec fn shut(self) -> PipelineModel {
        PipelineModel {
            walk: Walk { done: true, ..self.walk },
            indexer: IndexerModel { closed: true, ..self.indexer },
            parked: None,
            discovery_over: true,
            ..self
        }
    }

    /// An item has been dealt with: go on, or end discovery if the running
    /// flag is no longer set.
    pub open spec fn settle(self) -> (PipelineModel, ActionModel) {
        if self.running {
            (self, ActionModel::Continue)
        } else {
            (self.shut(), ActionModel::Drain)
        }
    }

    /// A request is offered to the queue. If it is queued, the indexed-file
    /// counter goes up by one. If the queue is full, the request is parked.
    pub open spec fn offer(self, request: DescriptorModel) -> (PipelineModel, ActionModel) {
        let (indexer, queued) = self.indexer.add_job(request);
        match queued {
            Ok(()) => (PipelineModel {
                indexer,
                progress: bumped(self.progress),
                parked: None,
                ..self
            }).settle(),
            Err(RejectedModel::Full(back)) => (
                PipelineModel { parked: Some(back), ..self },
                ActionModel::Wait,
            ),
            Err(RejectedModel::Closed(_)) => (self.shut(), ActionModel::Drain),
            Err(RejectedModel::Writer(e)) => (
                self.shut(),
                ActionModel::Fatal(IndexerError::Writer(e)),
            ),
        }
    }

    /// The file that the next turn of the discovery loop discovers, if it
    /// discovers one.
    pub open spec fn discovers(self) -> Option<DescriptorModel> {
        if !self.discovery_over && self.parked is None && self.running {
            match advance(self.walk, self.rules).1 {
                PollModel::Item(Ok(file)) => Some(file),
                _ => None,
            }
        } else {
            None
        }
    }

    /// One turn of the discovery loop.
    ///
    /// A parked request is offered again before anything else. Otherwise
    /// the running flag is consulted; if it is set, the collector is
    /// polled, and what it produces is dealt with: a file is offered to
    /// the queue, a fault is counted, a directory is asked for. When the
    /// flag is not set, or the collector has nothing more, discovery ends
    /// and the queue is closed.
    pub open spec fn step(self) -> (PipelineModel, ActionModel) {
        if self.discovery_over {
            (self, ActionModel::Drain)
        } else if self.parked is Some {
            self.offer(self.parked->Some_0)
        } else if !self.running {
            (self.shut(), ActionModel::Drain)
        } else {
            let (walk, polled) = advance(self.walk, self.rules);
            let next = PipelineModel { walk, ..self };
            match polled {
                PollModel::Finished => (next.shut(), ActionModel::Drain),
                PollModel::List(dir) => (next, ActionModel::List(dir)),
                PollModel::Item(Err(_)) => (
                    PipelineModel { faults: next.faults + 1, ..next },
                    ActionModel::Continue,
                ),
                PollModel::Item(Ok(file)) => next.offer(file),
            }
        }
    }
}

/// A file is recorded before it is handed on. When a turn of the
/// discovery loop discovers a file, the cache holds the file's
/// modification time by the end of that turn, whether the request was
/// queued, parked, or refused: a later pass never sees a stale timestamp
/// for a file that this pass has claimed.
pub proof fn lemma_discovered_is_recorded(m: PipelineModel)
    requires
        m.discovers() is Some,
    ensures
        is_current(m.step().0.walk.cache, m.discovers()->Some_0.path, m.discovers()->Some_0.modified),
{
    lemma_advance_yields_changed(m.walk, m.rules);
}

/// Nothing that a turn of the discovery loop touches goes backward: the
/// indexed-file counter, the count of discovery faults and the count of
/// accepted requests only grow, no recorded timestamp is taken back, and
/// neither the running flag nor the end of discovery is undone.
pub proof fn lemma_step_is_monotonic(m: PipelineModel)
    ensures
        m.step().0.progress >= m.progress,
        m.step().0.faults >= m.faults,
        m.step().0.indexer.accepted >= m.indexer.accepted,
        dominates(m.step().0.walk.cache, m.walk.cache),
        m.step().0.running == m.running,
        m.discovery_over ==> m.step().0.discovery_over,
        m.indexer.closed ==> m.step().0.indexer.closed,
{
    lemma_advance_cache_grows(m.walk, m.rules);
}

/// Cancellation is cooperative and final. Once the running flag is
/// cleared while discovery is on, the next turn of the discovery loop that
/// has no parked request to place ends discovery and closes the queue,
/// and every later turn finds it so. What was queued before stays queued
/// for the workers.
pub proof fn lemma_stop_ends_discovery(m: PipelineModel)
    requires
        !m.running,
        !m.discovery_over,
        m.parked is None,
    ensures
        m.step().1 == ActionModel::Drain,
        m.step().0.discovery_over,
        m.step().0.indexer.closed,
        m.step().0.indexer.queue == m.indexer.queue,
        m.step().0.indexer.accepted == m.indexer.accepted,
        m.step().0.walk.cache == m.walk.cache,
        m.step().0.step() == (m.step().0, ActionModel::Drain),
{
}

/// The pipeline.
pub struct Pipeline {
    flag: RunningFlag,
    collector: FileCollector,
    indexer: DocIndexer,
    progress: Progress,
    faults: Tally,
    parked: Option<IndexRequest>,
    discovery_over: bool,
}

impl Pipeline {
    /// The pipeline as plain values.
    pub closed spec fn view(&self) -> PipelineModel {
        PipelineModel {
            running: self.flag@,
            walk: self.collector@,
            rules: self.collector.rules(),
            indexer: self.indexer@,
            progress: self.progress@,
            faults: self.faults@,
            parked: match self.parked {
                Some(request) => Some(request@),
                None => None,
            },
            discovery_over: self.discovery_over,
        }
    }

    /// The cache entries in first-seen order.
    pub closed spec fn cache_entries(&self) -> Seq<Entry> {
        self.collector.cache_entries()
    }

    /// The schema of the index.
    pub closed spec fn spec_schema(&self) -> crate::document::Schema {
        self.indexer.spec_schema()
    }

    /// The invariant of the pipeline.
    pub closed spec fn wf(&self) -> bool {
        &&& self.collector.wf()
        &&& self.indexer.wf()
        &&& self.faults.wf()
    }

    /// The accounting of the indexer holds in every state of the pipeline.
    pub proof fn lemma_balanced(&self)
        requires
            self.wf(),
        ensures
            crate::indexer::balanced(self@.indexer),
    {
        self.indexer.lemma_balanced();
    }

    /// A pipeline over `roots`, with an empty index and an empty queue.
    /// The indexed-file counter starts at the number of files that the
    /// cache already tracks.
    pub fn new(
        roots: Vec<String>,
        rules: Rules,
        cache: ChangeCache,
        config: &IndexerConfig,
        now: u64,
    ) -> (made: Result<Pipeline, IndexerError>)
        requires
            cache.wf(),
        ensures
            config.queue_capacity == 0 || config.workers == 0 ==> made is Err && made->Err_0
                == IndexerError::InvalidConfig,
            config.queue_capacity > 0 && config.workers > 0 ==> made is Ok && made->Ok_0.wf()
                && made->Ok_0.spec_schema() == config.schema && made->Ok_0.cache_entries()
                == cache.entries() && made->Ok_0@ == PipelineModel::initial(
                cache@,
                cache.entries().len(),
                crate::file_collector::paths(roots@),
                rules@,
                IndexerModel::initial(*config, now),
            ),
    {
        Pipeline::with_index(roots, rules, cache, Index::new(config.schema), config, now)
    }

    /// A pipeline that goes on from `index`, as restored from its journal.
    pub fn with_index(
        roots: Vec<String>,
        rules: Rules,
        cache: ChangeCache,
        index: Index,
        config: &IndexerConfig,
        now: u64,
    ) -> (made: Result<Pipeline, IndexerError>)
        requires
            cache.wf(),
            index.wf(),
        ensures
            config.queue_capacity == 0 || config.workers == 0 ==> made is Err && made->Err_0
                == IndexerError::InvalidConfig,
            config.queue_capacity > 0 && config.workers > 0 && (index.spec_schema()
                != config.schema || index@.pending.len() > 0 || index@.broken) ==> made is Err
                && made->Err_0 == IndexerError::UnfitIndex,
            config.queue_capacity > 0 && config.workers > 0 && index.spec_schema() == config.schema
                && index@.pending.len() == 0 && !index@.broken ==> made is Ok && made->Ok_0.wf()
                && made->Ok_0.spec_schema() == config.schema && made->Ok_0.cache_entries()
                == cache.entries() && made->Ok_0@ == PipelineModel::initial(
                cache@,
                cache.entries().len(),
                crate::file_collector::paths(roots@),
                rules@,
                IndexerModel::resumed(*config, index@.committed, now),
            ),
    {
        let indexer = match DocIndexer::with_index(config, index, now) {
            Ok(indexer) => indexer,
            Err(e) => {
                return Err(e);
            },
        };
        let known: usize = cache.len();
        let collector = FileCollector::collect_files(roots, rules, cache);
        Ok(
            Pipeline {
                flag: RunningFlag::new(),
                collector,
                indexer,
                progress: Progress::starting_at(known),
                faults: Tally::new(),
                parked: None,
                discovery_over: false,
            },
        )
    }

    /// Ends discovery and closes the queue.
    fn shut(&mut self)
        requires
            old(self).wf(),
        ensures
            final(self).wf(),
            final(self).spec_schema() == old(self).spec_schema(),
            final(self).cache_entries() == old(self).cache_entries(),
            final(self)@ == old(self)@.shut(),
    {
        let _ = self.collector.poll(false);
        self.indexer.close();
        self.parked = None;
        self.discovery_over = true;
    }

    /// Offers `request` to the queue and says what to do next.
    fn offer(&mut self, request: IndexRequest) -> (action: Action)
        requires
            old(self).wf(),
        ensures
            final(self).wf(),
            final(self).spec_schema() == old(self).spec_schema(),
            final(self).cache_entries() == old(self).cache_entries(),
            (final(self)@, action@) == old(self)@.offer(request@),
    {
        match self.indexer.add_job(request) {
            Ok(()) => {
                self.progress.increment();
                self.parked = None;
                if self.flag.is_running() {
                    Action::Continue
                } else {
                    self.shut();
                    Action::Drain
                }
            },
            Err(Rejected::Full(back)) => {
                self.parked = Some(back);
                Action::Wait
            },
            Err(Rejected::Closed(_)) => {
                self.shut();
                Action::Drain
            },
            Err(Rejected::Writer(e)) => {
                self.shut();
                Action::Fatal(IndexerError::Writer(e))
            },
        }
    }

    /// Clears the running flag. Discovery ends at the next turn of the
    /// discovery loop; work that is queued is still completed. Returns
    /// whether this call cleared the flag.
    pub fn stop(&mut self) -> (flipped: bool)
        requires
            old(self).wf(),
        ensures
            final(self).wf(),
            final(self).spec_schema() == old(self).spec_schema(),
            final(self).cache_entries() == old(self).cache_entries(),
            final(self)@ == (PipelineModel { running: false, ..old(self)@ }),
            flipped == old(self)@.running,
    {
        self.flag.stop()
    }

    /// Whether the running flag is still set.
    pub fn is_running(&self) -> (r: bool)
        ensures
            r == self@.running,
    {
        self.flag.is_running()
    }

    /// One turn of the discovery loop.
    pub fn step(&mut self) -> (action: Action)
        requires
            old(self).wf(),
        ensures
            final(self).wf(),
            final(self).spec_schema() == old(self).spec_schema(),
            (final(self)@, action@) == old(self)@.step(),
            final(self).cache_entries() == match old(self)@.discovers() {
                Some(file) => recorded(old(self).cache_entries(), file.path, file.modified),
                None => old(self).cache_entries(),
            },
    {
        if self.discovery_over {
            return Action::Drain;
        }
        let parked: Option<IndexRequest> = self.parked.take();
        match parked {
            Some(request) => {
                return self.offer(request);
            },
            None => {},
        }
        if !self.flag.is_running() {
            self.shut();
            return Action::Drain;
        }
        match self.collector.poll(true) {
            Poll::Finished => {
                self.shut();
                Action::Drain
            },
            Poll::List(dir) => Action::List(dir),
            Poll::Item(Err(_)) => {
                self.faults.add(1);
                Action::Continue
            },
            Poll::Item(Ok(file)) => self.offer(IndexRequest(file)),
        }
    }

    /// Hands in the entries of a directory that `step` asked for.
    pub fn supply(&mut self, entries: Vec<Candidate>)
        requires
            old(self).wf(),
        ensures
            final(self).wf(),
            final(self).spec_schema() == old(self).spec_schema(),
            final(self).cache_entries() == old(self).cache_entries(),
            final(self)@ == (PipelineModel {
                walk: Walk { todo: old(self)@.walk.todo + models(entries@), ..old(self)@.walk },
                ..old(self)@
            }),
    {
        self.collector.supply(entries);
    }

    /// Marks the worker pool as started and says how many workers the
    /// caller is to run.
    pub fn spawn_workers(&mut self) -> (pool: Result<usize, IndexerError>)
        requires
            old(self).wf(),
        ensures
            final(self).wf(),
            final(self).spec_schema() == old(self).spec_schema(),
            final(self).cache_entries() == old(self).cache_entries(),
            old(self)@.indexer.started ==> pool == Err::<usize, IndexerError>(
                IndexerError::AlreadyStarted,
            ) && final(self)@ == old(self)@,
            !old(self)@.indexer.started ==> pool == Ok::<usize, IndexerError>(
                old(self)@.indexer.workers as usize,
            ) && final(self)@ == (PipelineModel {
                indexer: IndexerModel { started: true, ..old(self)@.indexer },
                ..old(self)@
            }),
    {
        self.indexer.spawn_workers()
    }

    /// The schema of the index.
    pub fn schema(&self) -> (schema: crate::document::Schema)
        ensures
            schema == self.spec_schema(),
    {
        self.indexer.schema()
    }

    /// Hands the next request to a worker.
    pub fn next_job(&mut self) -> (job: Dequeue)
        requires
            old(self).wf(),
        ensures
            final(self).wf(),
            final(self).spec_schema() == old(self).spec_schema(),
            final(self).cache_entries() == old(self).cache_entries(),
            final(self)@ == (PipelineModel {
                indexer: old(self)@.indexer.next_job().0,
                ..old(self)@
            }),
            job@ == old(self)@.indexer.next_job().1,
    {
        self.indexer.next_job()
    }

    /// Takes the outcome of one job that was in flight.
    pub fn complete_job(&mut self, outcome: Result<Document, ExtractionError>) -> (done: Result<
        Completion,
        IndexerError,
    >)
        requires
            old(self).wf(),
        ensures
            final(self).wf(),
            final(self).spec_schema() == old(self).spec_schema(),
            final(self).cache_entries() == old(self).cache_entries(),
            final(self)@ == (PipelineModel {
                indexer: old(self)@.indexer.complete_job(outcome_model(outcome)).0,
                ..old(self)@
            }),
            done == old(self)@.indexer.complete_job(outcome_model(outcome)).1,
    {
        self.indexer.complete_job(outcome)
    }

    /// Whether a periodic commit is due at `now`.
    pub fn commit_due(&self, now: u64) -> (r: bool)
        requires
            self.wf(),
        ensures
            r == self@.indexer.commit_due(now),
    {
        self.indexer.commit_due(now)
    }

    /// The batch that the next commit makes visible, for the caller to
    /// write to storage.
    pub fn pending(&self) -> (batch: &Vec<Document>)
        requires
            self.wf(),
        ensures
            doc_models(batch@) == self@.indexer.index.pending,
    {
        self.indexer.indexer().pending()
    }

    /// Commits the pending batch at `now`. `stored` says whether the
    /// caller got the batch onto durable storage.
    pub fn commit(&mut self, now: u64, stored: bool) -> (committed: Result<usize, IndexerError>)
        requires
            old(self).wf(),
        ensures
            final(self).wf(),
            final(self).spec_schema() == old(self).spec_schema(),
            final(self).cache_entries() == old(self).cache_entries(),
            final(self)@ == (PipelineModel {
                indexer: old(self)@.indexer.commit(now, stored).0,
                ..old(self)@
            }),
            committed == old(self)@.indexer.commit(now, stored).1,
    {
        self.indexer.commit(now, stored)
    }

    /// Whether discovery is over and every accepted request has been
    /// worked on, so that `finish` can be called.
    pub fn is_drained(&self) -> (r: bool)
        requires
            self.wf(),
        ensures
            r == crate::indexer::drained(self@.indexer),
    {
        self.indexer.is_drained()
    }

    /// The final, forced commit of a run. When it succeeds, every request
    /// that was ever queued has either been committed or been dropped by
    /// a failed extraction.
    pub fn finish(&mut self, now: u64, stored: bool) -> (summary: Result<Summary, IndexerError>)
        requires
            old(self).wf(),
        ensures
            final(self).wf(),
            final(self).spec_schema() == old(self).spec_schema(),
            final(self).cache_entries() == old(self).cache_entries(),
            final(self)@ == (PipelineModel {
                indexer: old(self)@.indexer.finish(now, stored).0,
                ..old(self)@
            }),
            summary == old(self)@.indexer.finish(now, stored).1,
            summary is Ok ==> final(self)@.indexer.accepted == final(self)@.indexer.committed
                + final(self)@.indexer.dropped,
    {
        self.indexer.finish(now, stored)
    }

    /// The index, for making and refreshing searchers.
    pub fn index(&self) -> (index: &Index)
        requires
            self.wf(),
        ensures
            index.wf(),
            index@ == self@.indexer.index,
            index.spec_schema() == self.spec_schema(),
    {
        self.indexer.indexer()
    }

    /// The document indexer, for reading its counters.
    pub fn indexer(&self) -> (indexer: &DocIndexer)
        requires
            self.wf(),
        ensures
            indexer.wf(),
            indexer@ == self@.indexer,
            indexer.spec_schema() == self.spec_schema(),
    {
        &self.indexer
    }

    /// The indexed-file counter.
    pub fn indexed_files(&self) -> (n: usize)
        ensures
            n == self@.progress,
    {
        self.progress.indexed_files()
    }

    /// Discovery faults met so far.
    pub fn faults(&self) -> (n: u64)
        requires
            self.wf(),
        ensures
            n == shown(self@.faults),
    {
        self.faults.get()
    }

    /// The cache as discovery has updated it so far.
    pub fn cache(&self) -> (cache: &ChangeCache)
        requires
            self.wf(),
        ensures
            cache.wf(),
            cache@ == self@.walk.cache,
            cache.entries() == self.cache_entries(),
    {
        self.collector.cache()
    }

    /// Takes the pipeline apart at the end of a run: the cache, to be
    /// persisted, and the document indexer.
    pub fn into_parts(self) -> (parts: (ChangeCache, DocIndexer))
        requires
            self.wf(),
        ensures
            parts.0.wf(),
            parts.0@ == self@.walk.cache,
            parts.0.entries() == self.cache_entries(),
            parts.1.wf(),
            parts.1@ == self@.indexer,
            parts.1.spec_schema() == self.spec_schema(),
    {
        let Pipeline { collector, indexer, .. } = self;
        (collector.into_cache(), indexer)
    }
}

} // verus!
