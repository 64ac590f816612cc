//! The decisions of a chunked transfer.
//!
//! The engine is a state machine. The caller asks it what to do next
//! ([`TransferEngine::next_action`]), performs that action (a ranged request
//! for one chunk, a wait, the final merge), and reports back what happened
//! ([`TransferEngine::chunk_succeeded`], [`TransferEngine::chunk_failed`],
//! [`TransferEngine::backoff_elapsed`]). The engine holds the plan, the phase
//! of every chunk, the retries each has used, the permits of the concurrency
//! limiter and of the failure budget, and the progress record.
use vstd::prelude::*;
use crate::count::{count_of, lemma_count_bounded, lemma_count_push, lemma_count_update};
use crate::error::TransferError;
use crate::plan::{chunk_count, lemma_chunk_count_bounds, plan_chunks, planned_ranges, ChunkRange};
use crate::progress::ProgressRecord;
use crate::retry::{backoff_delay, backoff_spec, BASE_WAIT_TIME, MAX_JITTER, MAX_WAIT_TIME};

verus! {

/// Where one chunk stands.
#[derive(Clone, Copy, Debug, PartialEq, Eq, Structural)]
pub enum ChunkPhase {
    /// Waiting for a concurrency permit.
    Pending,
    /// Being transferred; holds a concurrency permit.
    InFlight,
    /// Sleeping before its next attempt; holds a failure permit.
    Backoff,
    /// Transferred and recorded.
    Done,
}

/// The limits of a transfer.
#[derive(Clone, Copy, Debug, PartialEq, Eq, Structural)]
pub struct TransferConfig {
    /// Most chunks in flight at once.
    pub max_concurrent: usize,
    /// Most retries of one chunk after its first attempt.
    pub max_retries: usize,
    /// Most chunks between a failure and the outcome of their next attempt.
    pub parallel_failures: usize,
}

/// At least one chunk may be in flight, the failure budget is no larger than
/// the concurrency, and retries are on exactly when the budget is.
pub open spec fn valid_config(c: TransferConfig) -> bool {
    &&& c.max_concurrent > 0
    &&& c.parallel_failures <= c.max_concurrent
    &&& (c.parallel_failures == 0) == (c.max_retries == 0)
}

/// A chunk size that is not zero, and a file that has fewer than
/// `usize::MAX` chunks of it.
pub open spec fn plannable(total_size: u64, chunk_size: u64) -> bool {
    chunk_size > 0 && total_size / chunk_size < usize::MAX
}

/// What the caller is to do next.
#[derive(Clone, Copy, Debug, PartialEq, Eq, Structural)]
pub enum EngineAction {
    /// Transfer this chunk; a concurrency permit is taken for it.
    Fetch(ChunkRange),
    /// Nothing can start now: wait for an outstanding outcome, the end of a
    /// backoff, or a resume.
    Wait,
    /// Every chunk is done: merge and verify the output.
    Finalize,
    /// The transfer has failed; the progress record stays for a later resume.
    Abort(TransferError),
    /// The transfer was cancelled.
    Stop,
}

/// What follows the failure of one attempt.
#[derive(Clone, Copy, Debug, PartialEq, Eq, Structural)]
pub enum FailureOutcome {
    /// The chunk sleeps this many milliseconds, then waits for a permit again.
    RetryAfter(usize),
    /// The whole transfer fails with this error.
    Failed(TransferError),
}

/// The abstract state of a transfer.
pub ghost struct EngineState {
    pub ranges: Seq<ChunkRange>,
    pub phases: Seq<ChunkPhase>,
    pub retries: Seq<nat>,
    pub holds_failure_permit: Seq<bool>,
    pub config: TransferConfig,
    pub error: Option<TransferError>,
    pub paused: bool,
    pub cancelled: bool,
}

/// The first index at or after `k` of a chunk that waits for a permit, or the
/// length of `s` if there is none.
pub open spec fn first_pending_from(s: Seq<ChunkPhase>, k: int) -> int
    decreases s.len() - k,
{
    if k < 0 || k >= s.len() {
        s.len() as int
    } else if s[k] == ChunkPhase::Pending {
        k
    } else {
        first_pending_from(s, k + 1)
    }
}

proof fn lemma_first_pending_from(s: Seq<ChunkPhase>, k: int)
    requires
        0 <= k <= s.len(),
    ensures
        k <= first_pending_from(s, k) <= s.len(),
        first_pending_from(s, k) < s.len() ==> s[first_pending_from(s, k)] == ChunkPhase::Pending,
        forall|m: int| k <= m < first_pending_from(s, k) ==> s[m] != ChunkPhase::Pending,
    decreases s.len() - k,
{
    if k < s.len() && s[k] != ChunkPhase::Pending {
        lemma_first_pending_from(s, k + 1);
    }
}

impl EngineState {
    /// Number of chunks.
    pub open spec fn len(self) -> nat {
        self.ranges.len()
    }

    /// Chunks in flight: the concurrency permits taken.
    pub open spec fn in_flight(self) -> nat {
        count_of(self.phases, ChunkPhase::InFlight)
    }

    /// Failure permits taken.
    pub open spec fn failures_in_progress(self) -> nat {
        count_of(self.holds_failure_permit, true)
    }

    /// Chunks done.
    pub open spec fn completed(self) -> nat {
        count_of(self.phases, ChunkPhase::Done)
    }

    /// The indices of the chunks that are done: the progress record.
    pub open spec fn done_set(self) -> Set<usize> {
        Set::new(|i: usize| i < self.len() && self.phases[i as int] == ChunkPhase::Done)
    }

    /// The state is consistent: one phase, retry count and permit flag per
    /// chunk, no more chunks in flight than the concurrency allows and no more
    /// failure permits than the budget, a failure permit on every sleeping
    /// chunk and on no chunk that is done.
    pub open spec fn inv(self) -> bool {
        &&& valid_config(self.config)
        &&& self.phases.len() == self.len()
        &&& self.retries.len() == self.len()
        &&& self.holds_failure_permit.len() == self.len()
        &&& forall|i: int| 0 <= i < self.len() ==> (#[trigger] self.ranges[i]).index == i
        &&& forall|i: int| 0 <= i < self.len() ==> #[trigger] self.retries[i] <= self.config.max_retries
        &&& forall|i: int|
            0 <= i < self.len() && #[trigger] self.holds_failure_permit[i] ==> self.phases[i]
                != ChunkPhase::Done
        &&& forall|i: int|
            0 <= i < self.len() && #[trigger] self.phases[i] == ChunkPhase::Backoff
                ==> self.holds_failure_permit[i]
        &&& self.in_flight() <= self.config.max_concurrent
        &&& self.failures_in_progress() <= self.config.parallel_failures
    }

    /// The first chunk that waits for a permit.
    pub open spec fn first_pending(self) -> int {
        first_pending_from(self.phases, 0)
    }

    /// What the caller is to do next: report a failure or a cancellation
    /// first; finalize once every chunk is done; otherwise start the first
    /// waiting chunk, unless the transfer is paused or every concurrency
    /// permit is taken.
    pub open spec fn next_action(self) -> EngineAction {
        if self.error is Some {
            EngineAction::Abort(self.error->0)
        } else if self.cancelled {
            EngineAction::Stop
        } else if self.completed() == self.len() {
            EngineAction::Finalize
        } else if self.paused || self.in_flight() >= self.config.max_concurrent
            || self.first_pending() >= self.len() {
            EngineAction::Wait
        } else {
            EngineAction::Fetch(self.ranges[self.first_pending()])
        }
    }

    /// The state after [`EngineState::next_action`]: a started chunk is in
    /// flight.
    pub open spec fn after_next(self) -> EngineState {
        match self.next_action() {
            EngineAction::Fetch(r) => EngineState {
                phases: self.phases.update(self.first_pending(), ChunkPhase::InFlight),
                ..self
            },
            _ => self,
        }
    }

    /// The state after chunk `i` arrived: it is done, and its permits are
    /// given back.
    pub open spec fn after_success(self, i: int) -> EngineState {
        EngineState {
            phases: self.phases.update(i, ChunkPhase::Done),
            holds_failure_permit: self.holds_failure_permit.update(i, false),
            ..self
        }
    }

    /// The first error of a transfer is the one it reports.
    pub open spec fn with_error(self, e: TransferError) -> Option<TransferError> {
        if self.error is Some {
            self.error
        } else {
            Some(e)
        }
    }

    /// What follows a failed attempt of chunk `i`, with `jitter` as the random
    /// part of the wait. The chunk gives back its permits. If it has used all
    /// its retries the transfer fails with `RetriesExhausted`; if every failure
    /// permit is taken it fails with `TooManyParallelFailures`; otherwise the
    /// chunk takes a failure permit and sleeps.
    pub open spec fn failure_outcome(self, i: int, jitter: nat) -> FailureOutcome {
        let released = self.holds_failure_permit.update(i, false);
        if self.retries[i] >= self.config.max_retries {
            FailureOutcome::Failed(TransferError::RetriesExhausted)
        } else if count_of(released, true) >= self.config.parallel_failures {
            FailureOutcome::Failed(TransferError::TooManyParallelFailures)
        } else {
            FailureOutcome::RetryAfter(
                backoff_spec(
                    BASE_WAIT_TIME as nat,
                    self.retries[i],
                    MAX_WAIT_TIME as nat,
                    jitter,
                ) as usize,
            )
        }
    }

    /// The state after a failed attempt of chunk `i`.
    pub open spec fn after_failure(self, i: int, jitter: nat) -> EngineState {
        let released = self.holds_failure_permit.update(i, false);
        match self.failure_outcome(i, jitter) {
            FailureOutcome::Failed(e) => EngineState {
                phases: self.phases.update(i, ChunkPhase::Pending),
                holds_failure_permit: released,
                error: self.with_error(e),
                ..self
            },
            FailureOutcome::RetryAfter(_) => EngineState {
                phases: self.phases.update(i, ChunkPhase::Backoff),
                holds_failure_permit: self.holds_failure_permit.update(i, true),
                retries: self.retries.update(i, self.retries[i] + 1),
                ..self
            },
        }
    }

    /// The state after an error of chunk `i` that no retry can mend.
    pub open spec fn after_fatal(self, i: int, e: TransferError) -> EngineState {
        EngineState {
            phases: self.phases.update(i, ChunkPhase::Pending),
            holds_failure_permit: self.holds_failure_permit.update(i, false),
            error: self.with_error(e),
            ..self
        }
    }

    /// The state after chunk `i` slept: it waits for a permit again.
    pub open spec fn after_backoff(self, i: int) -> EngineState {
        EngineState { phases: self.phases.update(i, ChunkPhase::Pending), ..self }
    }
}

/// The engine of one transfer.
pub struct TransferEngine {
    ranges: Vec<ChunkRange>,
    phases: Vec<ChunkPhase>,
    retries: Vec<usize>,
    holds_failure_permit: Vec<bool>,
    in_flight: usize,
    failures_in_progress: usize,
    completed: usize,
    config: TransferConfig,
    error: Option<TransferError>,
    paused: bool,
    cancelled: bool,
    record: ProgressRecord,
    total_size: u64,
}

impl View for TransferEngine {
    type V = EngineState;

    closed spec fn view(&self) -> EngineState {
        EngineState {
            ranges: self.ranges@,
            phases: self.phases@,
            retries: self.retries@.map_values(|r: usize| r as nat),
            holds_failure_permit: self.holds_failure_permit@,
            config: self.config,
            error: self.error,
            paused: self.paused,
            cancelled: self.cancelled,
        }
    }
}

/// What is wrong with a configuration, checked in this order: a failure
/// budget larger than the concurrency; retries without a failure budget, or
/// a failure budget without retries; no chunk allowed in flight.
pub open spec fn config_error(c: TransferConfig) -> Option<TransferError> {
    if c.parallel_failures > c.max_concurrent {
        Some(TransferError::FailureBudgetExceedsConcurrency)
    } else if (c.parallel_failures == 0) != (c.max_retries == 0) {
        Some(TransferError::RetryBudgetMismatch)
    } else if c.max_concurrent == 0 {
        Some(TransferError::InvalidConfiguration)
    } else {
        None
    }
}

/// What is wrong with a transfer of `total_size` bytes in chunks of
/// `chunk_size` bytes under `c`: the configuration's error first, then
/// `InvalidConfiguration` for a size that cannot be planned.
pub open spec fn start_error(total_size: u64, chunk_size: u64, c: TransferConfig) -> Option<
    TransferError,
> {
    if config_error(c) is Some {
        config_error(c)
    } else if !plannable(total_size, chunk_size) {
        Some(TransferError::InvalidConfiguration)
    } else {
        None
    }
}

/// A configuration has an error exactly when it is not valid.
pub proof fn lemma_config_error_iff_invalid(c: TransferConfig)
    ensures
        config_error(c) is None <==> valid_config(c),
{
}

/// Whether `c` is a valid configuration; its error otherwise, see
/// [`config_error`].
pub fn check_config(c: TransferConfig) -> (r: Result<(), TransferError>)
    ensures
        r is Ok <==> valid_config(c),
        r == (match config_error(c) {
            Some(e) => Err::<(), TransferError>(e),
            None => Ok(()),
        }),
{
    if c.parallel_failures > c.max_concurrent {
        Err(TransferError::FailureBudgetExceedsConcurrency)
    } else if (c.parallel_failures == 0) != (c.max_retries == 0) {
        Err(TransferError::RetryBudgetMismatch)
    } else if c.max_concurrent == 0 {
        Err(TransferError::InvalidConfiguration)
    } else {
        Ok(())
    }
}

proof fn lemma_plannable_count(total_size: u64, chunk_size: u64)
    requires
        plannable(total_size, chunk_size),
    ensures
        chunk_count(total_size as nat, chunk_size as nat) <= usize::MAX,
{
    let t = total_size as nat;
    let c = chunk_size as nat;
    let k = chunk_count(t, c);
    let q = t / c;
    lemma_chunk_count_bounds(t, c);
    vstd::arithmetic::div_mod::lemma_fundamental_div_mod(t as int, c as int);
    if k > 0 {
        assert(k - 1 < q + 1) by (nonlinear_arith)
            requires
                (k - 1) * c < t,
                t == c * q + (t as int) % (c as int),
                0 <= (t as int) % (c as int) < c,
                c > 0,
        ;
    }
}

impl TransferEngine {
    /// The engine's fields agree with one another and with its abstract
    /// state, and that state is consistent.
    pub closed spec fn wf(&self) -> bool {
        &&& self@.inv()
        &&& self.in_flight == self@.in_flight()
        &&& self.failures_in_progress == self@.failures_in_progress()
        &&& self.completed == self@.completed()
        &&& self.record@ == self@.done_set()
    }

    /// The total size of the transfer.
    pub closed spec fn spec_total_size(&self) -> u64 {
        self.total_size
    }

    /// An engine for `total_size` bytes in chunks of `chunk_size` bytes, with
    /// the chunks that `record` lists already done. Indices in the record
    /// beyond the last chunk are ignored. Fails with the error of
    /// [`start_error`] when the limits do not fit together or the size cannot
    /// be planned.
    pub fn new(total_size: u64, chunk_size: u64, config: TransferConfig, record: &ProgressRecord)
        -> (r: Result<Self, TransferError>)
        ensures
            r is Err <==> start_error(total_size, chunk_size, config) is Some,
            r is Err ==> r == Err::<Self, TransferError>(
                start_error(total_size, chunk_size, config)->0,
            ),
            r matches Ok(e) ==> e.wf() && e.spec_total_size() == total_size && fresh_engine(
                e@,
                total_size,
                chunk_size,
                config,
                record@,
            ),
    {
        if let Err(e) = check_config(config) {
            return Err(e);
        }
        if chunk_size == 0 || total_size / chunk_size >= usize::MAX as u64 {
            return Err(TransferError::InvalidConfiguration);
        }
        proof {
            lemma_plannable_count(total_size, chunk_size);
        }
        let ranges = plan_chunks(total_size, chunk_size);
        let n = ranges.len();
        let mut phases: Vec<ChunkPhase> = Vec::new();
        let mut retries: Vec<usize> = Vec::new();
        let mut holds: Vec<bool> = Vec::new();
        let mut done = ProgressRecord::new();
        let mut completed: usize = 0;
        let mut i: usize = 0;
        while i < n
            invariant
                n == ranges@.len(),
                ranges@ == planned_ranges(total_size, chunk_size),
                i <= n,
                phases@.len() == i,
                retries@.len() == i,
                holds@.len() == i,
                completed == count_of(phases@, ChunkPhase::Done),
                count_of(phases@, ChunkPhase::InFlight) == 0,
                count_of(holds@, true) == 0,
                done@ == Set::new(
                    |j: usize| j < i && phases@[j as int] == ChunkPhase::Done,
                ),
                forall|j: int|
                    0 <= j < i ==> (#[trigger] phases@[j] == if record@.contains(j as usize) {
                        ChunkPhase::Done
                    } else {
                        ChunkPhase::Pending
                    }),
                forall|j: int| 0 <= j < i ==> #[trigger] retries@[j] == 0,
                forall|j: int| 0 <= j < i ==> !#[trigger] holds@[j],
            decreases n - i,
        {
            let p = if record.contains(i) {
                ChunkPhase::Done
            } else {
                ChunkPhase::Pending
            };
            proof {
                lemma_count_push(phases@, p, ChunkPhase::Done);
                lemma_count_push(phases@, p, ChunkPhase::InFlight);
                lemma_count_push(holds@, false, true);
                lemma_count_bounded(phases@, ChunkPhase::Done);
            }
            let ghost old_phases = phases@;
            phases.push(p);
            retries.push(0);
            holds.push(false);
            if p == ChunkPhase::Done {
                done.insert(i);
                completed = completed + 1;
            }
            proof {
                assert(done@ =~= Set::new(
                    |j: usize| j < i + 1 && phases@[j as int] == ChunkPhase::Done,
                )) by {
                    assert forall|j: usize| j < i implies phases@[j as int] == old_phases[j as int] by {}
                }
            }
            i = i + 1;
        }
        let e = TransferEngine {
            ranges,
            phases,
            retries,
            holds_failure_permit: holds,
            in_flight: 0,
            failures_in_progress: 0,
            completed,
            config,
            error: None,
            paused: false,
            cancelled: false,
            record: done,
            total_size,
        };
        proof {
            lemma_plan_indices(total_size, chunk_size);
            assert(e@.done_set() =~= e.record@);
        }
        Ok(e)
    }
}

impl TransferEngine {
    /// What to do next, and the state that follows: see
    /// [`EngineState::next_action`]. A chunk is started only while fewer than
    /// `max_concurrent` are in flight, and only one that is not done.
    pub fn next_action(&mut self) -> (r: EngineAction)
        requires
            old(self).wf(),
        ensures
            final(self).wf(),
            r == old(self)@.next_action(),
            final(self)@ == old(self)@.after_next(),
            final(self).spec_total_size() == old(self).spec_total_size(),
    {
        if let Some(e) = self.error {
            return EngineAction::Abort(e);
        }
        if self.cancelled {
            return EngineAction::Stop;
        }
        let n = self.ranges.len();
        if self.completed == n {
            return EngineAction::Finalize;
        }
        if self.paused || self.in_flight >= self.config.max_concurrent {
            return EngineAction::Wait;
        }
        let mut j: usize = 0;
        while j < n && self.phases[j] != ChunkPhase::Pending
            invariant
                n == self.phases@.len(),
                j <= n,
                first_pending_from(self.phases@, 0) == first_pending_from(self.phases@, j as int),
            decreases n - j,
        {
            j = j + 1;
        }
        if j == n {
            return EngineAction::Wait;
        }
        let ghost before = self@;
        proof {
            lemma_first_pending_from(self.phases@, j as int);
            lemma_count_update(self.phases@, j as int, ChunkPhase::InFlight, ChunkPhase::InFlight);
            lemma_count_update(self.phases@, j as int, ChunkPhase::InFlight, ChunkPhase::Done);
        }
        self.phases.set(j, ChunkPhase::InFlight);
        self.in_flight = self.in_flight + 1;
        proof {
            assert(self@ == before.after_next());
            assert(self@.done_set() =~= before.done_set());
        }
        EngineAction::Fetch(self.ranges[j])
    }
}

impl TransferEngine {
    /// Chunk `i`, in flight, arrived: it is done and recorded, and its
    /// permits are given back.
    pub fn chunk_succeeded(&mut self, i: usize)
        requires
            old(self).wf(),
            i < old(self)@.len(),
            old(self)@.phases[i as int] == ChunkPhase::InFlight,
        ensures
            final(self).wf(),
            final(self)@ == old(self)@.after_success(i as int),
            final(self).spec_total_size() == old(self).spec_total_size(),
    {
        let ghost before = self@;
        proof {
            lemma_count_update(self.phases@, i as int, ChunkPhase::Done, ChunkPhase::InFlight);
            lemma_count_update(self.phases@, i as int, ChunkPhase::Done, ChunkPhase::Done);
            lemma_count_update(self.holds_failure_permit@, i as int, false, true);
            lemma_count_bounded(self.phases@, ChunkPhase::Done);
        }
        let n = self.phases.len();
        assert(self.completed < n) by {
            assert(self.phases@[i as int] != ChunkPhase::Done);
        }
        if self.holds_failure_permit[i] {
            self.failures_in_progress = self.failures_in_progress - 1;
        }
        self.phases.set(i, ChunkPhase::Done);
        self.holds_failure_permit.set(i, false);
        self.in_flight = self.in_flight - 1;
        self.completed = self.completed + 1;
        self.record.insert(i);
        proof {
            assert(self@ == before.after_success(i as int));
            assert(self@.done_set() =~= before.done_set().insert(i));
        }
    }

    /// Chunk `i`, in flight, failed, and `jitter` is the random part of the
    /// wait before a retry: see [`EngineState::failure_outcome`].
    pub fn chunk_failed_with_jitter(&mut self, i: usize, jitter: usize) -> (r: FailureOutcome)
        requires
            old(self).wf(),
            i < old(self)@.len(),
            old(self)@.phases[i as int] == ChunkPhase::InFlight,
        ensures
            final(self).wf(),
            r == old(self)@.failure_outcome(i as int, jitter as nat),
            final(self)@ == old(self)@.after_failure(i as int, jitter as nat),
            final(self).spec_total_size() == old(self).spec_total_size(),
    {
        let ghost before = self@;
        proof {
            lemma_count_update(self.phases@, i as int, ChunkPhase::Pending, ChunkPhase::InFlight);
            lemma_count_update(self.phases@, i as int, ChunkPhase::Pending, ChunkPhase::Done);
            lemma_count_update(self.phases@, i as int, ChunkPhase::Backoff, ChunkPhase::InFlight);
            lemma_count_update(self.phases@, i as int, ChunkPhase::Backoff, ChunkPhase::Done);
            lemma_count_update(self.holds_failure_permit@, i as int, false, true);
            lemma_count_update(self.holds_failure_permit@, i as int, true, true);
        }
        if self.holds_failure_permit[i] {
            self.failures_in_progress = self.failures_in_progress - 1;
        }
        self.holds_failure_permit.set(i, false);
        self.in_flight = self.in_flight - 1;
        let used = self.retries[i];
        let outcome = if used >= self.config.max_retries {
            FailureOutcome::Failed(TransferError::RetriesExhausted)
        } else if self.failures_in_progress >= self.config.parallel_failures {
            FailureOutcome::Failed(TransferError::TooManyParallelFailures)
        } else {
            FailureOutcome::RetryAfter(backoff_delay(BASE_WAIT_TIME, used, MAX_WAIT_TIME, jitter))
        };
        match outcome {
            FailureOutcome::Failed(e) => {
                self.phases.set(i, ChunkPhase::Pending);
                if self.error.is_none() {
                    self.error = Some(e);
                }
            },
            FailureOutcome::RetryAfter(_) => {
                self.phases.set(i, ChunkPhase::Backoff);
                self.holds_failure_permit.set(i, true);
                self.failures_in_progress = self.failures_in_progress + 1;
                self.retries.set(i, used + 1);
            },
        }
        proof {
            let want = before.after_failure(i as int, jitter as nat);
            assert(self@.retries =~= want.retries);
            assert(self@.phases =~= want.phases);
            assert(self@.holds_failure_permit =~= want.holds_failure_permit);
            assert(self@ == before.after_failure(i as int, jitter as nat));
            assert(self@.done_set() =~= before.done_set());
        }
        outcome
    }

    /// Chunk `i`, in flight, failed; the random part of the wait is drawn
    /// here. What follows is the outcome of
    /// [`TransferEngine::chunk_failed_with_jitter`] for some jitter of at
    /// most half a second.
    pub fn chunk_failed(&mut self, i: usize) -> (r: FailureOutcome)
        requires
            old(self).wf(),
            i < old(self)@.len(),
            old(self)@.phases[i as int] == ChunkPhase::InFlight,
        ensures
            final(self).wf(),
            final(self).spec_total_size() == old(self).spec_total_size(),
            exists|j: nat|
                j <= MAX_JITTER && r == old(self)@.failure_outcome(i as int, j) && final(self)@
                    == old(self)@.after_failure(i as int, j),
    {
        let j = crate::retry::random_at_most(MAX_JITTER);
        self.chunk_failed_with_jitter(i, j)
    }

    /// Chunk `i`, in flight, hit an error that no retry can mend (its
    /// artifact could not be created or written): the transfer fails with it.
    pub fn chunk_fatal(&mut self, i: usize, e: TransferError)
        requires
            old(self).wf(),
            i < old(self)@.len(),
            old(self)@.phases[i as int] == ChunkPhase::InFlight,
        ensures
            final(self).wf(),
            final(self)@ == old(self)@.after_fatal(i as int, e),
            final(self).spec_total_size() == old(self).spec_total_size(),
    {
        let ghost before = self@;
        proof {
            lemma_count_update(self.phases@, i as int, ChunkPhase::Pending, ChunkPhase::InFlight);
            lemma_count_update(self.phases@, i as int, ChunkPhase::Pending, ChunkPhase::Done);
            lemma_count_update(self.holds_failure_permit@, i as int, false, true);
        }
        if self.holds_failure_permit[i] {
            self.failures_in_progress = self.failures_in_progress - 1;
        }
        self.holds_failure_permit.set(i, false);
        self.in_flight = self.in_flight - 1;
        self.phases.set(i, ChunkPhase::Pending);
        if self.error.is_none() {
            self.error = Some(e);
        }
        proof {
            assert(self@ == before.after_fatal(i as int, e));
            assert(self@.done_set() =~= before.done_set());
        }
    }

    /// Chunk `i` slept out its backoff: it waits for a permit again, keeping
    /// its failure permit until the outcome of that attempt.
    pub fn backoff_elapsed(&mut self, i: usize)
        requires
            old(self).wf(),
            i < old(self)@.len(),
            old(self)@.phases[i as int] == ChunkPhase::Backoff,
        ensures
            final(self).wf(),
            final(self)@ == old(self)@.after_backoff(i as int),
            final(self).spec_total_size() == old(self).spec_total_size(),
    {
        let ghost before = self@;
        proof {
            lemma_count_update(self.phases@, i as int, ChunkPhase::Pending, ChunkPhase::InFlight);
            lemma_count_update(self.phases@, i as int, ChunkPhase::Pending, ChunkPhase::Done);
        }
        self.phases.set(i, ChunkPhase::Pending);
        proof {
            assert(self@ == before.after_backoff(i as int));
            assert(self@.done_set() =~= before.done_set());
        }
    }
}

impl TransferEngine {
    /// Stops the start of new chunks; those in flight finish.
    pub fn pause(&mut self)
        requires
            old(self).wf(),
        ensures
            final(self).wf(),
            final(self)@ == (EngineState { paused: true, ..old(self)@ }),
            final(self).spec_total_size() == old(self).spec_total_size(),
    {
        self.paused = true;
    }

    /// Lets new chunks start again.
    pub fn resume(&mut self)
        requires
            old(self).wf(),
        ensures
            final(self).wf(),
            final(self)@ == (EngineState { paused: false, ..old(self)@ }),
            final(self).spec_total_size() == old(self).spec_total_size(),
    {
        self.paused = false;
    }

    /// Cancels the transfer: no chunk starts any more, and the next action
    /// reports the cancellation unless a failure came first.
    pub fn cancel(&mut self)
        requires
            old(self).wf(),
        ensures
            final(self).wf(),
            final(self)@ == (EngineState { cancelled: true, ..old(self)@ }),
            final(self).spec_total_size() == old(self).spec_total_size(),
    {
        self.cancelled = true;
    }

    /// The progress record: the chunks that are done.
    pub fn record(&self) -> (r: &ProgressRecord)
        requires
            self.wf(),
        ensures
            r@ == self@.done_set(),
    {
        &self.record
    }

    /// The number of chunks done and the number of chunks, for a progress
    /// observer.
    pub fn progress(&self) -> (r: (usize, usize))
        requires
            self.wf(),
        ensures
            r.0 == self@.completed(),
            r.1 == self@.len(),
    {
        (self.completed, self.ranges.len())
    }

    /// The total size of the transfer, which the output must have.
    pub fn total_size(&self) -> (r: u64)
        ensures
            r == self.spec_total_size(),
    {
        self.total_size
    }

    /// The phase of chunk `i`.
    pub fn phase(&self, i: usize) -> (r: ChunkPhase)
        requires
            self.wf(),
            i < self@.len(),
        ensures
            r == self@.phases[i as int],
    {
        self.phases[i]
    }
}

/// At every state of an engine, no more chunks are in flight than
/// `max_concurrent`, and no more chunks hold a failure permit than
/// `parallel_failures`. Every operation of the engine keeps it well formed.
pub proof fn lemma_concurrency_bounded(e: &TransferEngine)
    requires
        e.wf(),
    ensures
        e@.inv(),
        e@.in_flight() <= e@.config.max_concurrent,
        e@.failures_in_progress() <= e@.config.parallel_failures,
{
}

/// A transfer whose progress record lists every chunk starts none: its first
/// action is to finalize, and asking changes nothing.
pub proof fn lemma_complete_record_finalizes(s: EngineState, record: Set<usize>)
    requires
        s.inv(),
        s.error is None,
        !s.cancelled,
        forall|i: int|
            0 <= i < s.len() ==> (#[trigger] s.phases[i] == if record.contains(i as usize) {
                ChunkPhase::Done
            } else {
                ChunkPhase::Pending
            }),
        forall|i: usize| i < s.len() ==> #[trigger] record.contains(i),
    ensures
        s.next_action() == EngineAction::Finalize,
        s.after_next() == s,
{
    assert forall|i: int| 0 <= i < s.phases.len() implies s.phases[i] == ChunkPhase::Done by {
        assert(record.contains(i as usize));
    }
    lemma_count_bounded(s.phases, ChunkPhase::Done);
}

/// The engine only starts a chunk that waits for a permit, never one that
/// the progress record lists; a resumed transfer fetches only the chunks
/// missing from its record.
pub proof fn lemma_fetches_only_missing(s: EngineState)
    requires
        s.inv(),
    ensures
        s.next_action() matches EngineAction::Fetch(r) ==> {
            &&& 0 <= r.index < s.len()
            &&& s.ranges[r.index as int] == r
            &&& s.phases[r.index as int] == ChunkPhase::Pending
            &&& !s.done_set().contains(r.index)
        },
{
    if s.next_action() is Fetch {
        lemma_first_pending_from(s.phases, 0);
    }
}

/// The progress record never shrinks while a transfer runs: each step keeps
/// every recorded chunk, and a success adds its chunk.
pub proof fn lemma_record_only_grows(s: EngineState, i: usize, jitter: nat, e: TransferError)
    requires
        s.inv(),
        i < s.len(),
        s.phases[i as int] == ChunkPhase::InFlight,
    ensures
        s.done_set().subset_of(s.after_next().done_set()),
        s.after_success(i as int).done_set() == s.done_set().insert(i),
        s.after_failure(i as int, jitter).done_set() == s.done_set(),
        s.after_fatal(i as int, e).done_set() == s.done_set(),
{
    if s.next_action() is Fetch {
        lemma_first_pending_from(s.phases, 0);
    }
    assert(s.after_success(i as int).done_set() =~= s.done_set().insert(i));
    assert(s.after_failure(i as int, jitter).done_set() =~= s.done_set());
    assert(s.after_fatal(i as int, e).done_set() =~= s.done_set());
}

/// One step of a run in which each started chunk arrives before the next
/// one starts.
pub open spec fn serial_step(s: EngineState) -> EngineState {
    match s.next_action() {
        EngineAction::Fetch(r) => s.after_next().after_success(r.index as int),
        _ => s,
    }
}

/// The state after `k` steps of such a run.
pub open spec fn serial_run(s: EngineState, k: nat) -> EngineState
    decreases k,
{
    if k == 0 {
        s
    } else {
        serial_run(serial_step(s), (k - 1) as nat)
    }
}

/// The chunks that `k` steps of such a run fetch.
pub open spec fn serial_fetched(s: EngineState, k: nat) -> Set<usize>
    decreases k,
{
    if k == 0 {
        Set::empty()
    } else {
        match s.next_action() {
            EngineAction::Fetch(r) => serial_fetched(serial_step(s), (k - 1) as nat).insert(r.index),
            _ => serial_fetched(serial_step(s), (k - 1) as nat),
        }
    }
}

/// The chunks that wait for a permit.
pub open spec fn pending_set(s: EngineState) -> Set<usize> {
    Set::new(|i: usize| i < s.len() && s.phases[i as int] == ChunkPhase::Pending)
}

/// A state from which a transfer starts: consistent, no error, neither
/// paused nor cancelled, every chunk waiting or done, no failure permit taken.
pub open spec fn ready_to_run(s: EngineState) -> bool {
    &&& s.inv()
    &&& s.error is None
    &&& !s.paused
    &&& !s.cancelled
    &&& forall|i: int|
        0 <= i < s.len() ==> #[trigger] s.phases[i] == ChunkPhase::Pending || s.phases[i]
            == ChunkPhase::Done
    &&& forall|i: int| 0 <= i < s.len() ==> !#[trigger] s.holds_failure_permit[i]
}

/// When every attempt succeeds, a transfer fetches every chunk that waits,
/// each once, and nothing else, and then finalizes: after as many steps as
/// there are waiting chunks, the chunks fetched are exactly those.
pub proof fn lemma_run_fetches_exactly_pending(s: EngineState)
    requires
        ready_to_run(s),
    ensures
        serial_fetched(s, (s.len() - s.completed()) as nat) == pending_set(s),
        serial_run(s, (s.len() - s.completed()) as nat).next_action() == EngineAction::Finalize,
    decreases s.len() - s.completed(),
{
    lemma_count_bounded(s.phases, ChunkPhase::Done);
    let k = (s.len() - s.completed()) as nat;
    if k == 0 {
        assert(pending_set(s) =~= Set::<usize>::empty()) by {
            assert forall|i: usize| !pending_set(s).contains(i) by {
                if i < s.len() {
                    assert(s.phases[i as int] == ChunkPhase::Done);
                }
            }
        }
    } else {
        lemma_first_pending_from(s.phases, 0);
        let j = s.first_pending();
        assert(j < s.len()) by {
            if j >= s.len() {
                assert forall|i: int| 0 <= i < s.phases.len() implies s.phases[i]
                    == ChunkPhase::Done by {
                    assert(s.phases[i] != ChunkPhase::Pending);
                }
            }
        }
        assert forall|i: int| 0 <= i < s.phases.len() implies s.phases[i] != ChunkPhase::InFlight by {
            assert(s.phases[i] == ChunkPhase::Pending || s.phases[i] == ChunkPhase::Done);
        }
        crate::count::lemma_count_absent(s.phases, ChunkPhase::InFlight);
        assert(s.ranges[j].index == j);
        assert(s.next_action() == EngineAction::Fetch(s.ranges[j]));
        let t = serial_step(s);
        assert(t.phases =~= s.phases.update(j, ChunkPhase::Done));
        assert(t.holds_failure_permit =~= s.holds_failure_permit);
        lemma_count_update(s.phases, j, ChunkPhase::Done, ChunkPhase::Done);
        assert forall|i: int| 0 <= i < t.phases.len() implies t.phases[i] != ChunkPhase::InFlight by {
            assert(s.phases[i] == ChunkPhase::Pending || s.phases[i] == ChunkPhase::Done);
        }
        crate::count::lemma_count_absent(t.phases, ChunkPhase::InFlight);
        assert forall|i: int| 0 <= i < t.holds_failure_permit.len() implies t.holds_failure_permit[i]
            != true by {
            assert(!s.holds_failure_permit[i]);
        }
        crate::count::lemma_count_absent(t.holds_failure_permit, true);
        assert(ready_to_run(t));
        lemma_run_fetches_exactly_pending(t);
        assert(pending_set(s) =~= pending_set(t).insert(j as usize));
    }
}

/// A transfer resumed from a progress record fetches, when every attempt
/// succeeds, exactly the chunks missing from the record, each once, and then
/// finalizes; with a record that lists every chunk it fetches nothing.
pub proof fn lemma_resume_fetches_exactly_missing(
    s: EngineState,
    total_size: u64,
    chunk_size: u64,
    config: TransferConfig,
    record: Set<usize>,
)
    requires
        fresh_engine(s, total_size, chunk_size, config, record),
    ensures
        serial_fetched(s, (s.len() - s.completed()) as nat) == Set::new(
            |i: usize| i < s.len() && !record.contains(i),
        ),
        serial_run(s, (s.len() - s.completed()) as nat).next_action() == EngineAction::Finalize,
        (forall|i: usize| i < s.len() ==> #[trigger] record.contains(i)) ==> serial_fetched(
            s,
            (s.len() - s.completed()) as nat,
        ) == Set::<usize>::empty(),
{
    assert forall|i: int| 0 <= i < s.len() implies #[trigger] s.phases[i] == ChunkPhase::Pending
        || s.phases[i] == ChunkPhase::Done by {
        assert(s.phases[i] == if record.contains(i as usize) {
            ChunkPhase::Done
        } else {
            ChunkPhase::Pending
        });
    }
    lemma_run_fetches_exactly_pending(s);
    assert(pending_set(s) =~= Set::new(|i: usize| i < s.len() && !record.contains(i)));
    if forall|i: usize| i < s.len() ==> #[trigger] record.contains(i) {
        assert(pending_set(s) =~= Set::<usize>::empty());
    }
}

/// One failed attempt of chunk `i`, its backoff, and its start again.
pub open spec fn retry_round(s: EngineState, i: int, jitter: nat) -> EngineState {
    let f = s.after_failure(i, jitter).after_backoff(i);
    EngineState { phases: f.phases.update(i, ChunkPhase::InFlight), ..f }
}

/// `k` failed attempts of chunk `i`, each followed by its backoff and its
/// start again.
pub open spec fn failing_rounds(s: EngineState, i: int, k: nat, jitter: nat) -> EngineState
    decreases k,
{
    if k == 0 {
        s
    } else {
        retry_round(failing_rounds(s, i, (k - 1) as nat, jitter), i, jitter)
    }
}

proof fn lemma_failing_rounds(s: EngineState, i: int, k: nat, jitter: nat)
    requires
        s.inv(),
        s.error is None,
        0 <= i < s.len(),
        s.phases[i] == ChunkPhase::InFlight,
        s.retries[i] == 0,
        forall|j: int| 0 <= j < s.len() && j != i ==> !#[trigger] s.holds_failure_permit[j],
        k <= s.config.max_retries,
    ensures
        failing_rounds(s, i, k, jitter).error is None,
        failing_rounds(s, i, k, jitter).config == s.config,
        failing_rounds(s, i, k, jitter).phases.len() == s.len(),
        failing_rounds(s, i, k, jitter).holds_failure_permit.len() == s.len(),
        failing_rounds(s, i, k, jitter).retries.len() == s.len(),
        failing_rounds(s, i, k, jitter).phases[i] == ChunkPhase::InFlight,
        failing_rounds(s, i, k, jitter).retries[i] == k,
        forall|j: int|
            0 <= j < s.len() && j != i ==> !#[trigger] failing_rounds(
                s,
                i,
                k,
                jitter,
            ).holds_failure_permit[j],
    decreases k,
{
    if k > 0 {
        let p = failing_rounds(s, i, (k - 1) as nat, jitter);
        lemma_failing_rounds(s, i, (k - 1) as nat, jitter);
        let released = p.holds_failure_permit.update(i, false);
        assert forall|j: int| 0 <= j < released.len() implies released[j] != true by {}
        crate::count::lemma_count_absent(released, true);
    }
}

/// A chunk may fail `max_retries` times: with no other chunk between a
/// failure and its next outcome, after that many failed attempts (each
/// followed by its backoff and a new start) the transfer has not failed, and
/// a success then completes the chunk. Its next failure instead fails the
/// transfer with `RetriesExhausted`.
pub proof fn lemma_retry_bound(s: EngineState, i: int, jitter: nat)
    requires
        s.inv(),
        s.error is None,
        0 <= i < s.len(),
        s.phases[i] == ChunkPhase::InFlight,
        s.retries[i] == 0,
        forall|j: int| 0 <= j < s.len() && j != i ==> !#[trigger] s.holds_failure_permit[j],
    ensures
        forall|k: nat|
            k <= s.config.max_retries ==> {
                let t = #[trigger] failing_rounds(s, i, k, jitter);
                &&& t.error is None
                &&& t.phases[i] == ChunkPhase::InFlight
                &&& t.after_success(i).phases[i] == ChunkPhase::Done
                &&& t.after_success(i).error is None
            },
        failing_rounds(s, i, s.config.max_retries as nat, jitter).failure_outcome(i, jitter)
            == FailureOutcome::Failed(TransferError::RetriesExhausted),
        failing_rounds(s, i, s.config.max_retries as nat, jitter).after_failure(i, jitter).error
            == Some(TransferError::RetriesExhausted),
{
    assert forall|k: nat| k <= s.config.max_retries implies {
        let t = #[trigger] failing_rounds(s, i, k, jitter);
        &&& t.error is None
        &&& t.phases[i] == ChunkPhase::InFlight
        &&& t.after_success(i).phases[i] == ChunkPhase::Done
        &&& t.after_success(i).error is None
    } by {
        lemma_failing_rounds(s, i, k, jitter);
    }
    lemma_failing_rounds(s, i, s.config.max_retries as nat, jitter);
}

/// The state of an engine just built for `total_size` bytes in chunks of
/// `chunk_size` bytes under `config`, resuming from `record`: consistent,
/// planned, with the recorded chunks done and the others waiting, no retry
/// used, no failure permit taken, no error, neither paused nor cancelled.
pub open spec fn fresh_engine(
    s: EngineState,
    total_size: u64,
    chunk_size: u64,
    config: TransferConfig,
    record: Set<usize>,
) -> bool {
    &&& s.inv()
    &&& s.ranges == planned_ranges(total_size, chunk_size)
    &&& s.config == config
    &&& s.error is None
    &&& !s.paused
    &&& !s.cancelled
    &&& forall|i: int|
        0 <= i < s.len() ==> (#[trigger] s.phases[i] == if record.contains(i as usize) {
            ChunkPhase::Done
        } else {
            ChunkPhase::Pending
        })
    &&& forall|i: int| 0 <= i < s.len() ==> #[trigger] s.retries[i] == 0
    &&& forall|i: int| 0 <= i < s.len() ==> !#[trigger] s.holds_failure_permit[i]
}

/// Chunk `i` of a plan has index `i`.
proof fn lemma_plan_indices(total_size: u64, chunk_size: u64)
    requires
        plannable(total_size, chunk_size),
    ensures
        forall|i: int|
            0 <= i < planned_ranges(total_size, chunk_size).len() ==> (#[trigger] planned_ranges(
                total_size,
                chunk_size,
            )[i]).index == i,
{
    lemma_plannable_count(total_size, chunk_size);
}

} // verus!
