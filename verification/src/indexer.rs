//! The document indexer: the write side of the index.
//!
//! It owns the schema, the index with its single writer, a bounded job
//! queue, and the commit policy. It does not run threads and does no I/O:
//! the caller's worker threads take jobs with [`DocIndexer::next_job`],
//! read and extract outside of it, and report with
//! [`DocIndexer::complete_job`]. Every mutation goes through this one
//! value, so access to the writer is sequential by construction.
//!
//! Every accepted request is accounted for at all times: it is queued, in
//! flight with a worker, dropped by a failed extraction, written to the
//! index, or lost to a broken writer.

use crate::document::{Document, DocumentModel, ExtractionError, IndexRequest, Schema};
use crate::file_collector::DescriptorModel;
use crate::index::{merge, Index, IndexModel, WriterError};
use crate::once_every::{due, OnceEvery};
use crate::tally::{shown, Tally};
use std::collections::VecDeque;
use vstd::prelude::*;

verus! {

/// What the document indexer is built from.
#[derive(Debug, Clone, Copy, PartialEq, Eq, Structural)]
pub struct IndexerConfig {
    /// The schema of the index.
    pub schema: Schema,
    /// How many requests may wait in the queue. At least one.
    pub queue_capacity: usize,
    /// How many workers take jobs. At least one.
    pub workers: usize,
    /// Least time between two periodic commits.
    pub commit_interval: u64,
}

/// A failure of the document indexer.
#[derive(Debug, Clone, Copy, PartialEq, Eq, Structural)]
pub enum IndexerError {
    /// The queue capacity or the worker count is zero.
    InvalidConfig,
    /// The index to resume from was made with another schema, holds
    /// uncommitted documents, or has a broken writer.
    UnfitIndex,
    /// The workers were started before.
    AlreadyStarted,
    /// A job was reported complete while no job was in flight.
    NoJobInFlight,
    /// The final commit was asked for while jobs were queued or in flight,
    /// or before the queue was closed.
    NotDrained,
    /// The index writer failed. This is fatal to the indexer.
    Writer(WriterError),
}

/// Why a request was not queued. The request comes back to the caller but
/// where the writer has failed.
#[derive(Debug, PartialEq, Eq)]
pub enum Rejected {
    /// The queue is at capacity. Wait for a worker to take a job, then
    /// offer the request again.
    Full(IndexRequest),
    /// The queue was closed.
    Closed(IndexRequest),
    /// The index writer failed.
    Writer(WriterError),
}

/// What a worker gets when it asks for work.
#[derive(Debug, PartialEq, Eq)]
pub enum Dequeue {
    /// A request to work on.
    Job(IndexRequest),
    /// Nothing to take right now; ask again later.
    Wait,
    /// The queue is closed and empty, or the writer has failed: stop.
    Exit,
}

/// What became of a completed job.
#[derive(Debug, Clone, Copy, PartialEq, Eq, Structural)]
pub enum Completion {
    /// The document was handed to the writer.
    Written,
    /// Extraction failed; no document was produced.
    Dropped(ExtractionError),
}

/// The counts at the end of a run.
#[derive(Debug, Clone, Copy, PartialEq, Eq, Structural)]
pub struct Summary {
    /// Requests that were queued.
    pub accepted: u64,
    /// Requests whose extraction failed.
    pub dropped: u64,
    /// Documents that commits made visible.
    pub committed: u64,
}

/// The document indexer as plain values.
pub struct IndexerModel {
    pub capacity: nat,
    pub workers: nat,
    pub started: bool,
    pub closed: bool,
    /// Requests waiting, the next to be taken first.
    pub queue: Seq<DescriptorModel>,
    /// Requests taken by workers and not yet reported complete.
    pub in_flight: nat,
    pub index: IndexModel,
    /// Requests queued so far.
    pub accepted: nat,
    /// Requests whose extraction failed.
    pub dropped: nat,
    /// Documents handed to the writer.
    pub written: nat,
    /// Documents that commits made visible.
    pub committed: nat,
    /// Documents that arrived at a broken writer.
    pub lost: nat,
    pub commit_interval: u64,
    pub last_commit: u64,
}

/// The accounting that holds of every state of the indexer: no accepted
/// request is unaccounted for, and every written document is either
/// committed or waiting for the next commit.
pub open spec fn balanced(m: IndexerModel) -> bool {
    &&& m.accepted == m.queue.len() + m.in_flight + m.dropped + m.written + m.lost
    &&& m.written == m.committed + m.index.pending.len()
    &&& m.queue.len() <= m.capacity
    &&& m.in_flight <= m.workers
    &&& 1 <= m.capacity
    &&& 1 <= m.workers
    &&& !m.index.broken ==> m.lost == 0
}

/// The queue is closed and no request is queued or in flight.
pub open spec fn drained(m: IndexerModel) -> bool {
    m.closed && m.queue.len() == 0 && m.in_flight == 0
}

/// A rejection as plain values.
pub enum RejectedModel {
    Full(DescriptorModel),
    Closed(DescriptorModel),
    Writer(WriterError),
}

impl View for Rejected {
    type V = RejectedModel;

    open spec fn view(&self) -> RejectedModel {
        match self {
            Rejected::Full(request) => RejectedModel::Full(request@),
            Rejected::Closed(request) => RejectedModel::Closed(request@),
            Rejected::Writer(e) => RejectedModel::Writer(*e),
        }
    }
}

/// The result of `add_job` as plain values.
pub open spec fn queued_model(queued: Result<(), Rejected>) -> Result<(), RejectedModel> {
    match queued {
        Ok(()) => Ok(()),
        Err(rejected) => Err(rejected@),
    }
}

/// What a worker gets, as plain values.
pub enum DequeueModel {
    Job(DescriptorModel),
    Wait,
    Exit,
}

impl View for Dequeue {
    type V = DequeueModel;

    open spec fn view(&self) -> DequeueModel {
        match self {
            Dequeue::Job(request) => DequeueModel::Job(request@),
            Dequeue::Wait => DequeueModel::Wait,
            Dequeue::Exit => DequeueModel::Exit,
        }
    }
}

/// The outcome of an extraction as plain values.
pub open spec fn outcome_model(outcome: Result<Document, ExtractionError>) -> Result<
    DocumentModel,
    ExtractionError,
> {
    match outcome {
        Ok(doc) => Ok(doc@),
        Err(e) => Err(e),
    }
}

impl IndexerModel {
    /// An indexer that starts from `committed`, with nothing queued and
    /// nothing counted.
    pub open spec fn resumed(config: IndexerConfig, committed: Seq<DocumentModel>, now: u64) -> IndexerModel {
        IndexerModel {
            capacity: config.queue_capacity as nat,
            workers: config.workers as nat,
            started: false,
            closed: false,
            queue: Seq::empty(),
            in_flight: 0,
            index: IndexModel { committed, pending: Seq::empty(), broken: false },
            accepted: 0,
            dropped: 0,
            written: 0,
            committed: 0,
            lost: 0,
            commit_interval: config.commit_interval,
            last_commit: now,
        }
    }

    /// A fresh indexer, with an empty index.
    pub open spec fn initial(config: IndexerConfig, now: u64) -> IndexerModel {
        IndexerModel::resumed(config, Seq::empty(), now)
    }

    /// `add_job`: the request is queued unless the writer has failed, the
    /// queue was closed, or the queue is at capacity; a request that is
    /// not queued goes back to the caller.
    pub open spec fn add_job(self, request: DescriptorModel) -> (IndexerModel, Result<(), RejectedModel>) {
        if self.index.broken {
            (self, Err(RejectedModel::Writer(WriterError::Broken)))
        } else if self.closed {
            (self, Err(RejectedModel::Closed(request)))
        } else if self.queue.len() >= self.capacity {
            (self, Err(RejectedModel::Full(request)))
        } else {
            (
                IndexerModel {
                    queue: self.queue.push(request),
                    accepted: self.accepted + 1,
                    ..self
                },
                Ok(()),
            )
        }
    }

    /// `next_job`: the request at the head of the queue goes to the
    /// worker, if a worker is free; a worker is told to stop once the
    /// queue is closed and empty, or the writer has failed.
    pub open spec fn next_job(self) -> (IndexerModel, DequeueModel) {
        if self.index.broken {
            (self, DequeueModel::Exit)
        } else if self.queue.len() > 0 && self.in_flight < self.workers {
            (
                IndexerModel {
                    queue: self.queue.drop_first(),
                    in_flight: self.in_flight + 1,
                    ..self
                },
                DequeueModel::Job(self.queue[0]),
            )
        } else if self.queue.len() == 0 && self.closed {
            (self, DequeueModel::Exit)
        } else {
            (self, DequeueModel::Wait)
        }
    }

    /// `complete_job`: a failed extraction is counted as dropped, a
    /// document joins the pending batch, and a document that arrives at a
    /// broken writer is counted as lost.
    pub open spec fn complete_job(self, outcome: Result<DocumentModel, ExtractionError>) -> (
        IndexerModel,
        Result<Completion, IndexerError>,
    ) {
        if self.in_flight == 0 {
            (self, Err(IndexerError::NoJobInFlight))
        } else {
            let less = IndexerModel { in_flight: (self.in_flight - 1) as nat, ..self };
            match outcome {
                Err(e) => (
                    IndexerModel { dropped: self.dropped + 1, ..less },
                    Ok(Completion::Dropped(e)),
                ),
                Ok(doc) => if self.index.broken {
                    (
                        IndexerModel { lost: self.lost + 1, ..less },
                        Err(IndexerError::Writer(WriterError::Broken)),
                    )
                } else {
                    (
                        IndexerModel {
                            written: self.written + 1,
                            index: IndexModel {
                                pending: self.index.pending.push(doc),
                                ..self.index
                            },
                            ..less
                        },
                        Ok(Completion::Written),
                    )
                },
            }
        }
    }

    /// Whether a periodic commit is due at `now`.
    pub open spec fn commit_due(self, now: u64) -> bool {
        !self.index.broken && self.index.pending.len() > 0 && due(
            self.commit_interval,
            self.last_commit,
            now,
        )
    }

    /// `commit`: the pending batch becomes visible as a whole, or, where
    /// the batch did not reach storage, the writer breaks.
    pub open spec fn commit(self, now: u64, stored: bool) -> (
        IndexerModel,
        Result<usize, IndexerError>,
    ) {
        if self.index.broken {
            (self, Err(IndexerError::Writer(WriterError::Broken)))
        } else if !stored {
            (
                IndexerModel { index: IndexModel { broken: true, ..self.index }, ..self },
                Err(IndexerError::Writer(WriterError::Storage)),
            )
        } else {
            (
                IndexerModel {
                    index: IndexModel {
                        committed: merge(self.index.committed, self.index.pending),
                        pending: Seq::empty(),
                        broken: false,
                    },
                    committed: self.committed + self.index.pending.len(),
                    last_commit: now,
                    ..self
                },
                Ok(self.index.pending.len() as usize),
            )
        }
    }

    /// `finish`: the forced commit, made only once the queue is drained.
    pub open spec fn finish(self, now: u64, stored: bool) -> (
        IndexerModel,
        Result<Summary, IndexerError>,
    ) {
        if !self.index.broken && !drained(self) {
            (self, Err(IndexerError::NotDrained))
        } else {
            let (after, committed) = self.commit(now, stored);
            (
                after,
                match committed {
                    Err(e) => Err(e),
                    Ok(_) => Ok(
                        Summary {
                            accepted: shown(after.accepted),
                            dropped: shown(after.dropped),
                            committed: shown(after.committed),
                        },
                    ),
                },
            )
        }
    }
}

/// Every transition keeps the accounting.
pub proof fn lemma_transitions_balanced(
    m: IndexerModel,
    request: DescriptorModel,
    outcome: Result<DocumentModel, ExtractionError>,
    now: u64,
    stored: bool,
)
    requires
        balanced(m),
    ensures
        balanced(m.add_job(request).0),
        balanced(m.next_job().0),
        balanced(m.complete_job(outcome).0),
        balanced(m.commit(now, stored).0),
        balanced(m.finish(now, stored).0),
        balanced(IndexerModel { closed: true, ..m }),
{
}

/// Graceful shutdown is complete: once the queue is closed and drained and
/// the final commit has gone through, every request that was ever accepted
/// has either been committed or been dropped by a failed extraction. None
/// is left in the queue, with a worker, or pending.
pub proof fn lemma_shutdown_complete(m: IndexerModel, now: u64)
    requires
        balanced(m),
        drained(m),
        !m.index.broken,
    ensures
        m.finish(now, true).1 is Ok,
        ({
            let end = m.finish(now, true).0;
            &&& end.accepted == end.committed + end.dropped
            &&& end.accepted == m.accepted
            &&& end.queue.len() == 0
            &&& end.in_flight == 0
            &&& end.index.pending.len() == 0
        }),
{
}

/// The views of a list of requests.
pub open spec fn request_models(requests: Seq<IndexRequest>) -> Seq<DescriptorModel> {
    Seq::new(requests.len(), |i: int| requests[i]@)
}

/// The document indexer.
pub struct DocIndexer {
    index: Index,
    queue: VecDeque<IndexRequest>,
    capacity: usize,
    workers: usize,
    started: bool,
    closed: bool,
    in_flight: usize,
    policy: OnceEvery,
    accepted: Tally,
    dropped: Tally,
    written: Tally,
    committed: Tally,
    lost: Tally,
}

impl DocIndexer {
    /// The indexer as plain values.
    pub closed spec fn view(&self) -> IndexerModel {
        IndexerModel {
            capacity: self.capacity as nat,
            workers: self.workers as nat,
            started: self.started,
            closed: self.closed,
            queue: request_models(self.queue@),
            in_flight: self.in_flight as nat,
            index: self.index@,
            accepted: self.accepted@,
            dropped: self.dropped@,
            written: self.written@,
            committed: self.committed@,
            lost: self.lost@,
            commit_interval: self.policy.interval(),
            last_commit: self.policy.last(),
        }
    }

    /// The schema of the index.
    pub closed spec fn spec_schema(&self) -> Schema {
        self.index.spec_schema()
    }

    /// The invariant of the indexer. It includes the accounting.
    pub closed spec fn wf(&self) -> bool {
        &&& self.index.wf()
        &&& self.accepted.wf()
        &&& self.dropped.wf()
        &&& self.written.wf()
        &&& self.committed.wf()
        &&& self.lost.wf()
        &&& balanced(self@)
    }

    /// The accounting holds of every indexer that the functions below
    /// make or leave behind.
    pub proof fn lemma_balanced(&self)
        requires
            self.wf(),
        ensures
            balanced(self@),
    {
    }

    /// A new indexer with an empty index, an empty queue and no workers
    /// started. The first periodic commit is due one interval after `now`.
    pub fn new(config: &IndexerConfig, now: u64) -> (made: Result<DocIndexer, IndexerError>)
        ensures
            config.queue_capacity == 0 || config.workers == 0 ==> made is Err && made->Err_0
                == IndexerError::InvalidConfig,
            config.queue_capacity > 0 && config.workers > 0 ==> made is Ok && made->Ok_0.wf()
                && made->Ok_0.spec_schema() == config.schema && made->Ok_0@
                == IndexerModel::initial(*config, now),
    {
        DocIndexer::with_index(config, Index::new(config.schema), now)
    }

    /// A new indexer that goes on from `index`, as restored from its
    /// journal. The index must have been made with the schema of `config`,
    /// hold no uncommitted documents, and have a working writer.
    pub fn with_index(config: &IndexerConfig, index: Index, now: u64) -> (made: Result<
        DocIndexer,
        IndexerError,
    >)
        requires
            index.wf(),
        ensures
            config.queue_capacity == 0 || config.workers == 0 ==> made is Err && made->Err_0
                == IndexerError::InvalidConfig,
            config.queue_capacity > 0 && config.workers > 0 && (index.spec_schema()
                != config.schema || index@.pending.len() > 0 || index@.broken) ==> made is Err
                && made->Err_0 == IndexerError::UnfitIndex,
            config.queue_capacity > 0 && config.workers > 0 && index.spec_schema() == config.schema
                && index@.pending.len() == 0 && !index@.broken ==> made is Ok && made->Ok_0.wf()
                && made->Ok_0.spec_schema() == config.schema && made->Ok_0@
                == IndexerModel::resumed(*config, index@.committed, now),
    {
        if config.queue_capacity == 0 || config.workers == 0 {
            return Err(IndexerError::InvalidConfig);
        }
        let theirs: Schema = index.schema();
        if theirs.max_body_len != config.schema.max_body_len || theirs.case_sensitive
            != config.schema.case_sensitive || index.pending_len() > 0 || index.is_broken() {
            return Err(IndexerError::UnfitIndex);
        }
        let indexer = DocIndexer {
            index,
            queue: VecDeque::new(),
            capacity: config.queue_capacity,
            workers: config.workers,
            started: false,
            closed: false,
            in_flight: 0,
            policy: OnceEvery::new(config.commit_interval, now),
            accepted: Tally::new(),
            dropped: Tally::new(),
            written: Tally::new(),
            committed: Tally::new(),
            lost: Tally::new(),
        };
        proof {
            assert(indexer@.queue =~= Seq::<DescriptorModel>::empty());
            assert(indexer@.index.pending =~= Seq::<DocumentModel>::empty());
        }
        Ok(indexer)
    }

    /// Marks the worker pool as started and says how many workers the
    /// caller is to run. The pool is started once.
    pub fn spawn_workers(&mut self) -> (pool: Result<usize, IndexerError>)
        requires
            old(self).wf(),
        ensures
            final(self).wf(),
            final(self).spec_schema() == old(self).spec_schema(),
            old(self)@.started ==> pool == Err::<usize, IndexerError>(IndexerError::AlreadyStarted)
                && final(self)@ == old(self)@,
            !old(self)@.started ==> pool == Ok::<usize, IndexerError>(old(self)@.workers as usize)
                && final(self)@ == (IndexerModel { started: true, ..old(self)@ }),
    {
        if self.started {
            return Err(IndexerError::AlreadyStarted);
        }
        self.started = true;
        Ok(self.workers)
    }

    /// Offers a request to the queue.
    ///
    /// The request is queued unless the writer has failed, the queue was
    /// closed, or the queue is at capacity. In the last case the caller is
    /// meant to wait and offer the request again: that is the
    /// backpressure.
    pub fn add_job(&mut self, request: IndexRequest) -> (queued: Result<(), Rejected>)
        requires
            old(self).wf(),
        ensures
            final(self).wf(),
            final(self).spec_schema() == old(self).spec_schema(),
            (final(self)@, queued_model(queued)) == old(self)@.add_job(request@),
    {
        if self.index.is_broken() {
            return Err(Rejected::Writer(WriterError::Broken));
        }
        if self.closed {
            return Err(Rejected::Closed(request));
        }
        if self.queue.len() >= self.capacity {
            return Err(Rejected::Full(request));
        }
        self.queue.push_back(request);
        self.accepted.add(1);
        proof {
            assert(self@.queue =~= old(self)@.queue.push(request@));
        }
        Ok(())
    }

    /// Hands the next request to a worker.
    ///
    /// A worker that gets `Wait` asks again later; one that gets `Exit`
    /// stops. No more requests are in flight at a time than there are
    /// workers.
    pub fn next_job(&mut self) -> (job: Dequeue)
        requires
            old(self).wf(),
        ensures
            final(self).wf(),
            final(self).spec_schema() == old(self).spec_schema(),
            (final(self)@, job@) == old(self)@.next_job(),
    {
        if self.index.is_broken() {
            return Dequeue::Exit;
        }
        if self.queue.len() > 0 && self.in_flight < self.workers {
            match self.queue.pop_front() {
                Some(request) => {
                    self.in_flight = self.in_flight + 1;
                    proof {
                        assert(self@.queue =~= old(self)@.queue.drop_first());
                    }
                    return Dequeue::Job(request);
                },
                None => {
                    return Dequeue::Wait;
                },
            }
        }
        if self.queue.len() == 0 && self.closed {
            return Dequeue::Exit;
        }
        Dequeue::Wait
    }

    /// Takes the outcome of one job that was in flight.
    ///
    /// A failed extraction is counted and dropped; it never stops the
    /// indexer. A document goes to the writer's pending batch, where it
    /// waits for the next commit.
    pub fn complete_job(&mut self, outcome: Result<Document, ExtractionError>) -> (done: Result<
        Completion,
        IndexerError,
    >)
        requires
            old(self).wf(),
        ensures
            final(self).wf(),
            final(self).spec_schema() == old(self).spec_schema(),
            (final(self)@, done) == old(self)@.complete_job(outcome_model(outcome)),
    {
        if self.in_flight == 0 {
            return Err(IndexerError::NoJobInFlight);
        }
        self.in_flight = self.in_flight - 1;
        match outcome {
            Err(e) => {
                self.dropped.add(1);
                Ok(Completion::Dropped(e))
            },
            Ok(doc) => {
                match self.index.add(doc) {
                    Ok(()) => {
                        self.written.add(1);
                        Ok(Completion::Written)
                    },
                    Err(e) => {
                        self.lost.add(1);
                        Err(IndexerError::Writer(e))
                    },
                }
            },
        }
    }

    /// Whether a periodic commit is due at `now`: documents are pending,
    /// the writer works, and the commit interval has passed.
    pub fn commit_due(&self, now: u64) -> (r: bool)
        requires
            self.wf(),
        ensures
            r == self@.commit_due(now),
    {
        !self.index.is_broken() && self.index.pending_len() > 0 && self.policy.is_due(now)
    }

    /// Commits the pending batch at `now`. `stored` says whether the
    /// caller got the batch onto durable storage.
    ///
    /// A successful commit makes the whole batch visible to readers that
    /// refresh afterwards, and returns its size. A failed write breaks the
    /// writer: this and every later call fail.
    pub fn commit(&mut self, now: u64, stored: bool) -> (committed: Result<usize, IndexerError>)
        requires
            old(self).wf(),
        ensures
            final(self).wf(),
            final(self).spec_schema() == old(self).spec_schema(),
            (final(self)@, committed) == old(self)@.commit(now, stored),
    {
        match self.index.commit(stored) {
            Ok(n) => {
                self.committed.add(n);
                self.policy.mark(now);
                Ok(n)
            },
            Err(e) => Err(IndexerError::Writer(e)),
        }
    }

    /// Closes the queue: from now on no request is accepted. Requests that
    /// are queued or in flight are still worked on.
    pub fn close(&mut self)
        requires
            old(self).wf(),
        ensures
            final(self).wf(),
            final(self).spec_schema() == old(self).spec_schema(),
            final(self)@ == (IndexerModel { closed: true, ..old(self)@ }),
    {
        self.closed = true;
    }

    /// Whether the queue is closed and every accepted request has been
    /// worked on.
    pub fn is_drained(&self) -> (r: bool)
        requires
            self.wf(),
        ensures
            r == drained(self@),
    {
        self.closed && self.queue.len() == 0 && self.in_flight == 0
    }

    /// The final, forced commit of a run.
    ///
    /// It is made once the queue is closed and drained, whatever the
    /// commit policy says. When it succeeds nothing is left pending, and
    /// every request that was ever accepted has either been committed or
    /// been dropped by a failed extraction.
    pub fn finish(&mut self, now: u64, stored: bool) -> (summary: Result<Summary, IndexerError>)
        requires
            old(self).wf(),
        ensures
            final(self).wf(),
            final(self).spec_schema() == old(self).spec_schema(),
            (final(self)@, summary) == old(self)@.finish(now, stored),
            summary is Ok ==> final(self)@.accepted == final(self)@.committed + final(self)@.dropped,
    {
        if self.index.is_broken() {
            return Err(IndexerError::Writer(WriterError::Broken));
        }
        if !self.is_drained() {
            return Err(IndexerError::NotDrained);
        }
        match self.commit(now, stored) {
            Ok(_) => Ok(
                Summary {
                    accepted: self.accepted.get(),
                    dropped: self.dropped.get(),
                    committed: self.committed.get(),
                },
            ),
            Err(e) => Err(e),
        }
    }

    /// The index, for making and refreshing searchers and for reading the
    /// pending batch.
    pub fn indexer(&self) -> (index: &Index)
        requires
            self.wf(),
        ensures
            index.wf(),
            index@ == self@.index,
            index.spec_schema() == self.spec_schema(),
    {
        &self.index
    }

    /// The schema of the index.
    pub fn schema(&self) -> (schema: Schema)
        ensures
            schema == self.spec_schema(),
    {
        self.index.schema()
    }

    /// Number of requests waiting in the queue.
    pub fn queued(&self) -> (n: usize)
        ensures
            n == self@.queue.len(),
    {
        self.queue.len()
    }

    /// Number of requests that workers hold.
    pub fn in_flight(&self) -> (n: usize)
        ensures
            n == self@.in_flight,
    {
        self.in_flight
    }

    /// Whether the queue was closed.
    pub fn is_closed(&self) -> (r: bool)
        ensures
            r == self@.closed,
    {
        self.closed
    }

    /// Requests queued so far.
    pub fn accepted(&self) -> (n: u64)
        requires
            self.wf(),
        ensures
            n == shown(self@.accepted),
    {
        self.accepted.get()
    }

    /// Requests whose extraction failed.
    pub fn dropped(&self) -> (n: u64)
        requires
            self.wf(),
        ensures
            n == shown(self@.dropped),
    {
        self.dropped.get()
    }

    /// Documents handed to the writer.
    pub fn written(&self) -> (n: u64)
        requires
            self.wf(),
        ensures
            n == shown(self@.written),
    {
        self.written.get()
    }

    /// Documents that commits made visible.
    pub fn committed(&self) -> (n: u64)
        requires
            self.wf(),
        ensures
            n == shown(self@.committed),
    {
        self.committed.get()
    }

    /// Documents that arrived at a broken writer.
    pub fn lost(&self) -> (n: u64)
        requires
            self.wf(),
        ensures
            n == shown(self@.lost),
    {
        self.lost.get()
    }
}

} // verus!
