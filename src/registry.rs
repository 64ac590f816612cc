//! The tasks that a user interface registers, and their lifecycle.
//!
//! A task is known by its source URL, at most one per URL. It is created
//! `Pending`, moves to `Downloading` when its transfer starts, may be paused
//! and resumed, and ends `Completed`, `Failed` or `Cancelled`. A task stays
//! registered until it is removed explicitly.
use vstd::prelude::*;
use crate::error::TransferError;

verus! {

/// Where a task stands in its lifecycle.
#[derive(Clone, Copy, Debug, PartialEq, Eq, Structural, Default)]
pub enum TaskStatus {
    #[default]
    Pending,
    Downloading,
    Paused,
    Completed,
    Failed,
    Cancelled,
}

/// An operation that moves a task from one status to another.
#[derive(Clone, Copy, Debug, PartialEq, Eq, Structural)]
pub enum ControlOp {
    /// The transfer starts.
    Start,
    /// The user pauses the transfer.
    Pause,
    /// The user resumes the transfer.
    Resume,
    /// The user cancels the transfer.
    Cancel,
    /// The transfer succeeded.
    Complete,
    /// The transfer failed.
    Fail,
}

/// The status that `op` leads to from `s`, if `op` is allowed there: start
/// from `Pending`; pause, complete and fail from `Downloading`; resume from
/// `Paused`; cancel from `Downloading` or `Paused`. Nothing leaves a terminal
/// status.
pub open spec fn transition(s: TaskStatus, op: ControlOp) -> Option<TaskStatus> {
    match (s, op) {
        (TaskStatus::Pending, ControlOp::Start) => Some(TaskStatus::Downloading),
        (TaskStatus::Downloading, ControlOp::Pause) => Some(TaskStatus::Paused),
        (TaskStatus::Paused, ControlOp::Resume) => Some(TaskStatus::Downloading),
        (TaskStatus::Downloading, ControlOp::Cancel) => Some(TaskStatus::Cancelled),
        (TaskStatus::Paused, ControlOp::Cancel) => Some(TaskStatus::Cancelled),
        (TaskStatus::Downloading, ControlOp::Complete) => Some(TaskStatus::Completed),
        (TaskStatus::Downloading, ControlOp::Fail) => Some(TaskStatus::Failed),
        _ => None,
    }
}

/// A status that no operation leaves.
pub open spec fn is_terminal(s: TaskStatus) -> bool {
    s == TaskStatus::Completed || s == TaskStatus::Failed || s == TaskStatus::Cancelled
}

/// `to` follows `from` by one move of the lifecycle.
pub open spec fn legal_move(from: TaskStatus, to: TaskStatus) -> bool {
    match (from, to) {
        (TaskStatus::Pending, TaskStatus::Downloading) => true,
        (TaskStatus::Downloading, TaskStatus::Paused) => true,
        (TaskStatus::Paused, TaskStatus::Downloading) => true,
        (TaskStatus::Downloading, TaskStatus::Cancelled) => true,
        (TaskStatus::Paused, TaskStatus::Cancelled) => true,
        (TaskStatus::Downloading, TaskStatus::Completed) => true,
        (TaskStatus::Downloading, TaskStatus::Failed) => true,
        _ => false,
    }
}

/// The moves of the lifecycle are exactly those of the operations.
pub proof fn lemma_legal_move_is_transition(from: TaskStatus, to: TaskStatus)
    ensures
        legal_move(from, to) <==> exists|op: ControlOp| #[trigger] transition(from, op) == Some(to),
{
    if legal_move(from, to) {
        let op = match (from, to) {
            (TaskStatus::Pending, _) => ControlOp::Start,
            (TaskStatus::Downloading, TaskStatus::Paused) => ControlOp::Pause,
            (TaskStatus::Paused, TaskStatus::Downloading) => ControlOp::Resume,
            (_, TaskStatus::Cancelled) => ControlOp::Cancel,
            (_, TaskStatus::Completed) => ControlOp::Complete,
            _ => ControlOp::Fail,
        };
        assert(transition(from, op) == Some(to));
    }
}

/// Whether `to` follows `from` by one move of the lifecycle.
fn is_legal_move(from: TaskStatus, to: TaskStatus) -> (r: bool)
    ensures
        r == legal_move(from, to),
{
    match (from, to) {
        (TaskStatus::Pending, TaskStatus::Downloading) => true,
        (TaskStatus::Downloading, TaskStatus::Paused) => true,
        (TaskStatus::Paused, TaskStatus::Downloading) => true,
        (TaskStatus::Downloading, TaskStatus::Cancelled) => true,
        (TaskStatus::Paused, TaskStatus::Cancelled) => true,
        (TaskStatus::Downloading, TaskStatus::Completed) => true,
        (TaskStatus::Downloading, TaskStatus::Failed) => true,
        _ => false,
    }
}

/// The status that `op` leads to from `status`, or `InvalidStateTransition`.
pub fn apply_control(status: TaskStatus, op: ControlOp) -> (r: Result<TaskStatus, TransferError>)
    ensures
        r == (match transition(status, op) {
            Some(t) => Ok::<TaskStatus, TransferError>(t),
            None => Err(TransferError::InvalidStateTransition),
        }),
{
    match (status, op) {
        (TaskStatus::Pending, ControlOp::Start) => Ok(TaskStatus::Downloading),
        (TaskStatus::Downloading, ControlOp::Pause) => Ok(TaskStatus::Paused),
        (TaskStatus::Paused, ControlOp::Resume) => Ok(TaskStatus::Downloading),
        (TaskStatus::Downloading, ControlOp::Cancel) => Ok(TaskStatus::Cancelled),
        (TaskStatus::Paused, ControlOp::Cancel) => Ok(TaskStatus::Cancelled),
        (TaskStatus::Downloading, ControlOp::Complete) => Ok(TaskStatus::Completed),
        (TaskStatus::Downloading, ControlOp::Fail) => Ok(TaskStatus::Failed),
        _ => Err(TransferError::InvalidStateTransition),
    }
}

/// Pause succeeds only from `Downloading`, resume only from `Paused`, cancel
/// only from `Downloading` or `Paused`; every other attempt is refused, and
/// a terminal status accepts no operation.
pub proof fn lemma_control_rules(s: TaskStatus, op: ControlOp)
    ensures
        op == ControlOp::Pause ==> (transition(s, op) is Some <==> s == TaskStatus::Downloading),
        op == ControlOp::Resume ==> (transition(s, op) is Some <==> s == TaskStatus::Paused),
        op == ControlOp::Cancel ==> (transition(s, op) is Some <==> (s == TaskStatus::Downloading
            || s == TaskStatus::Paused)),
        op == ControlOp::Start ==> (transition(s, op) is Some <==> s == TaskStatus::Pending),
        is_terminal(s) ==> transition(s, op) is None,
{
}

/// One registered task.
#[derive(Clone, Debug)]
pub struct DownloadTask {
    pub url: String,
    pub output_path: String,
    pub sha256: String,
    /// Chunks done.
    pub progress: u32,
    /// Chunks in all.
    pub total_blocks: u32,
    pub status: TaskStatus,
}

/// A copy of a task, field by field.
fn copy_task(t: &DownloadTask) -> (r: DownloadTask)
    ensures
        r == *t,
{
    DownloadTask {
        url: t.url.clone(),
        output_path: t.output_path.clone(),
        sha256: t.sha256.clone(),
        progress: t.progress,
        total_blocks: t.total_blocks,
        status: t.status,
    }
}

/// The tasks of a sequence keyed by URL; a later one hides an earlier one
/// with the same URL.
pub open spec fn tasks_map(s: Seq<DownloadTask>) -> Map<Seq<char>, DownloadTask>
    decreases s.len(),
{
    if s.len() == 0 {
        Map::empty()
    } else {
        tasks_map(s.drop_last()).insert(s.last().url@, s.last())
    }
}

/// No two tasks of the sequence share a URL.
pub open spec fn unique_urls(s: Seq<DownloadTask>) -> bool {
    forall|i: int, j: int| 0 <= i < j < s.len() ==> (#[trigger] s[i]).url@ != (#[trigger] s[j]).url@
}

/// A task just registered for `url`, `output_path` and `sha256`.
pub open spec fn new_task(t: DownloadTask, url: Seq<char>, output_path: Seq<char>, sha256: Seq<char>) -> bool {
    &&& t.url@ == url
    &&& t.output_path@ == output_path
    &&& t.sha256@ == sha256
    &&& t.progress == 0
    &&& t.total_blocks == 0
    &&& t.status == TaskStatus::Pending
}

proof fn lemma_tasks_map_index(s: Seq<DownloadTask>, i: int)
    requires
        unique_urls(s),
        0 <= i < s.len(),
    ensures
        tasks_map(s).contains_key(s[i].url@),
        tasks_map(s)[s[i].url@] == s[i],
    decreases s.len(),
{
    if i < s.len() - 1 {
        assert(s.drop_last()[i] == s[i]);
        lemma_tasks_map_index(s.drop_last(), i);
        assert(s[i].url@ != s[s.len() - 1].url@);
    }
}

proof fn lemma_tasks_map_domain(s: Seq<DownloadTask>, u: Seq<char>)
    ensures
        tasks_map(s).contains_key(u) <==> exists|i: int| 0 <= i < s.len() && (#[trigger] s[i]).url@ == u,
    decreases s.len(),
{
    if s.len() > 0 {
        lemma_tasks_map_domain(s.drop_last(), u);
        if exists|i: int| 0 <= i < s.drop_last().len() && (#[trigger] s.drop_last()[i]).url@ == u {
            let i = choose|i: int| 0 <= i < s.drop_last().len() && (#[trigger] s.drop_last()[i]).url@ == u;
            assert(s[i] == s.drop_last()[i]);
        }
        if exists|i: int| 0 <= i < s.len() && (#[trigger] s[i]).url@ == u {
            let i = choose|i: int| 0 <= i < s.len() && (#[trigger] s[i]).url@ == u;
            if i < s.len() - 1 {
                assert(s.drop_last()[i] == s[i]);
            }
        }
    }
}

proof fn lemma_tasks_map_update(s: Seq<DownloadTask>, i: int, t: DownloadTask)
    requires
        unique_urls(s),
        0 <= i < s.len(),
        t.url@ == s[i].url@,
    ensures
        tasks_map(s.update(i, t)) == tasks_map(s).insert(t.url@, t),
        unique_urls(s.update(i, t)),
    decreases s.len(),
{
    let u = s.update(i, t);
    if i == s.len() - 1 {
        assert(u.drop_last() =~= s.drop_last());
        assert(tasks_map(u) =~= tasks_map(s).insert(t.url@, t));
    } else {
        assert(u.drop_last() =~= s.drop_last().update(i, t));
        lemma_tasks_map_update(s.drop_last(), i, t);
        assert(s[i].url@ != s[s.len() - 1].url@);
        assert(tasks_map(u) =~= tasks_map(s).insert(t.url@, t));
    }
    assert forall|a: int, b: int| 0 <= a < b < u.len() implies (#[trigger] u[a]).url@
        != (#[trigger] u[b]).url@ by {
        assert(s[a].url@ != s[b].url@);
    }
}

proof fn lemma_tasks_map_remove(s: Seq<DownloadTask>, i: int)
    requires
        unique_urls(s),
        0 <= i < s.len(),
    ensures
        tasks_map(s.remove(i)) == tasks_map(s).remove(s[i].url@),
        unique_urls(s.remove(i)),
    decreases s.len(),
{
    let r = s.remove(i);
    if i == s.len() - 1 {
        assert(r =~= s.drop_last());
        lemma_tasks_map_domain(s.drop_last(), s[i].url@);
        if tasks_map(s.drop_last()).contains_key(s[i].url@) {
            let j = choose|j: int| 0 <= j < s.drop_last().len() && (#[trigger] s.drop_last()[j]).url@ == s[i].url@;
            assert(s[j].url@ != s[i].url@);
        }
        assert(tasks_map(r) =~= tasks_map(s).remove(s[i].url@));
    } else {
        assert(r.drop_last() =~= s.drop_last().remove(i));
        assert(r.last() == s.last());
        lemma_tasks_map_remove(s.drop_last(), i);
        assert(s[i].url@ != s[s.len() - 1].url@);
        assert(tasks_map(r) =~= tasks_map(s).remove(s[i].url@));
    }
    assert forall|a: int, b: int| 0 <= a < b < r.len() implies (#[trigger] r[a]).url@
        != (#[trigger] r[b]).url@ by {
        if a < i {
            if b < i {
                assert(s[a].url@ != s[b].url@);
            } else {
                assert(s[a].url@ != s[b + 1].url@);
            }
        } else {
            assert(s[a + 1].url@ != s[b + 1].url@);
        }
    }
}

/// The registry of tasks, one per URL.
pub struct DownloadTaskManager {
    tasks: Vec<DownloadTask>,
}

impl View for DownloadTaskManager {
    type V = Map<Seq<char>, DownloadTask>;

    closed spec fn view(&self) -> Map<Seq<char>, DownloadTask> {
        tasks_map(self.tasks@)
    }
}

impl DownloadTaskManager {
    /// No two tasks share a URL.
    pub closed spec fn wf(&self) -> bool {
        unique_urls(self.tasks@)
    }

    /// An empty registry.
    pub fn new() -> (r: Self)
        ensures
            r.wf(),
            r@ == Map::<Seq<char>, DownloadTask>::empty(),
    {
        DownloadTaskManager { tasks: Vec::new() }
    }

    /// The position of the task registered for `url`.
    fn find(&self, url: &str) -> (r: Option<usize>)
        requires
            self.wf(),
        ensures
            r matches Some(i) ==> i < self.tasks@.len() && self.tasks@[i as int].url@ == url@,
            r is None ==> !self@.contains_key(url@),
            r is Some <==> self@.contains_key(url@),
    {
        let key = url.to_owned();
        let mut k: usize = 0;
        while k < self.tasks.len()
            invariant
                k <= self.tasks@.len(),
                key@ == url@,
                unique_urls(self.tasks@),
                forall|m: int| 0 <= m < k ==> (#[trigger] self.tasks@[m]).url@ != url@,
            decreases self.tasks@.len() - k,
        {
            if self.tasks[k].url == key {
                proof {
                    lemma_tasks_map_index(self.tasks@, k as int);
                }
                return Some(k);
            }
            k = k + 1;
        }
        proof {
            lemma_tasks_map_domain(self.tasks@, url@);
        }
        None
    }

    /// Registers a `Pending` task for `url` unless one is registered there
    /// already; a registered task is left as it is, whatever its status.
    pub fn add_task(&mut self, url: &str, output_path: &str, sha256: &str)
        requires
            old(self).wf(),
        ensures
            final(self).wf(),
            old(self)@.contains_key(url@) ==> final(self)@ == old(self)@,
            !old(self)@.contains_key(url@) ==> {
                &&& final(self)@.dom() == old(self)@.dom().insert(url@)
                &&& new_task(final(self)@[url@], url@, output_path@, sha256@)
                &&& forall|u: Seq<char>| u != url@ && old(self)@.contains_key(u) ==> #[trigger] final(self)@[u]
                    == old(self)@[u]
            },
    {
        let t = DownloadTask {
            url: url.to_owned(),
            output_path: output_path.to_owned(),
            sha256: sha256.to_owned(),
            progress: 0,
            total_blocks: 0,
            status: TaskStatus::Pending,
        };
        match self.find(url) {
            Some(_) => {},
            None => {
                let ghost before = self.tasks@;
                self.tasks.push(t);
                proof {
                    assert(self.tasks@.drop_last() =~= before);
                    lemma_tasks_map_domain(before, url@);
                    assert forall|a: int, b: int| 0 <= a < b < self.tasks@.len() implies (
                    #[trigger] self.tasks@[a]).url@ != (#[trigger] self.tasks@[b]).url@ by {
                        if b == before.len() {
                            assert(before[a].url@ != url@);
                        } else {
                            assert(before[a].url@ != before[b].url@);
                        }
                    }
                }
            },
        }
    }

    /// Registers a `Pending` task for `url`; `TaskAlreadyExists` if one is
    /// registered there, whatever its status.
    pub fn create_task(&mut self, url: &str, output_path: &str, sha256: &str) -> (r: Result<
        (),
        TransferError,
    >)
        requires
            old(self).wf(),
        ensures
            final(self).wf(),
            old(self)@.contains_key(url@) ==> r == Err::<(), TransferError>(
                TransferError::TaskAlreadyExists,
            ) && final(self)@ == old(self)@,
            !old(self)@.contains_key(url@) ==> {
                &&& r is Ok
                &&& final(self)@.dom() == old(self)@.dom().insert(url@)
                &&& new_task(final(self)@[url@], url@, output_path@, sha256@)
                &&& forall|u: Seq<char>| u != url@ && old(self)@.contains_key(u) ==> #[trigger] final(self)@[u]
                    == old(self)@[u]
            },
    {
        if self.find(url).is_some() {
            return Err(TransferError::TaskAlreadyExists);
        }
        self.add_task(url, output_path, sha256);
        Ok(())
    }

    /// The task registered for `url`.
    pub fn get_task(&self, url: &str) -> (r: Option<&DownloadTask>)
        requires
            self.wf(),
        ensures
            r is Some <==> self@.contains_key(url@),
            r matches Some(t) ==> *t == self@[url@],
    {
        match self.find(url) {
            Some(i) => {
                proof {
                    lemma_tasks_map_index(self.tasks@, i as int);
                }
                Some(&self.tasks[i])
            },
            None => None,
        }
    }

    /// The status of the task registered for `url`; `TaskNotFound` if none is.
    pub fn status(&self, url: &str) -> (r: Result<TaskStatus, TransferError>)
        requires
            self.wf(),
        ensures
            self@.contains_key(url@) ==> r == Ok::<TaskStatus, TransferError>(self@[url@].status),
            !self@.contains_key(url@) ==> r == Err::<TaskStatus, TransferError>(
                TransferError::TaskNotFound,
            ),
    {
        match self.get_task(url) {
            Some(t) => Ok(t.status),
            None => Err(TransferError::TaskNotFound),
        }
    }

    /// Replaces the task at position `i` by `t`, which has the same URL.
    fn replace_at(&mut self, i: usize, t: DownloadTask)
        requires
            old(self).wf(),
            i < old(self).tasks@.len(),
            t.url@ == old(self).tasks@[i as int].url@,
        ensures
            final(self).wf(),
            final(self)@ == old(self)@.insert(t.url@, t),
    {
        let ghost before = self.tasks@;
        self.tasks.remove(i);
        self.tasks.insert(i, t);
        proof {
            assert(self.tasks@ =~= before.update(i as int, t));
            lemma_tasks_map_update(before, i as int, t);
        }
    }

    /// Sets the status of the task registered for `url` to `status`, where
    /// that is its status already or a move of the lifecycle from it (see
    /// [`legal_move`]). `TaskNotFound` if no task is registered there,
    /// `InvalidStateTransition` for any other move; on an error nothing
    /// changes.
    pub fn update_task_status(&mut self, url: &str, status: TaskStatus) -> (r: Result<
        (),
        TransferError,
    >)
        requires
            old(self).wf(),
        ensures
            final(self).wf(),
            !old(self)@.contains_key(url@) ==> r == Err::<(), TransferError>(
                TransferError::TaskNotFound,
            ) && final(self)@ == old(self)@,
            old(self)@.contains_key(url@) && (old(self)@[url@].status == status || legal_move(
                old(self)@[url@].status,
                status,
            )) ==> r is Ok && final(self)@ == old(self)@.insert(
                url@,
                DownloadTask { status, ..old(self)@[url@] },
            ),
            old(self)@.contains_key(url@) && !(old(self)@[url@].status == status || legal_move(
                old(self)@[url@].status,
                status,
            )) ==> r == Err::<(), TransferError>(TransferError::InvalidStateTransition)
                && final(self)@ == old(self)@,
    {
        match self.find(url) {
            None => Err(TransferError::TaskNotFound),
            Some(i) => {
                proof {
                    lemma_tasks_map_index(self.tasks@, i as int);
                }
                let from = self.tasks[i].status;
                if from != status && !is_legal_move(from, status) {
                    return Err(TransferError::InvalidStateTransition);
                }
                let mut t = copy_task(&self.tasks[i]);
                t.status = status;
                self.replace_at(i, t);
                Ok(())
            },
        }
    }

    /// Sets the progress of the task registered for `url`, if there is one.
    pub fn update_task_progress(&mut self, url: &str, progress: u32, total_blocks: u32)
        requires
            old(self).wf(),
        ensures
            final(self).wf(),
            old(self)@.contains_key(url@) ==> final(self)@ == old(self)@.insert(
                url@,
                DownloadTask { progress, total_blocks, ..old(self)@[url@] },
            ),
            !old(self)@.contains_key(url@) ==> final(self)@ == old(self)@,
    {
        if let Some(i) = self.find(url) {
            proof {
                lemma_tasks_map_index(self.tasks@, i as int);
            }
            let mut t = copy_task(&self.tasks[i]);
            t.progress = progress;
            t.total_blocks = total_blocks;
            self.replace_at(i, t);
        }
    }

    /// Applies `op` to the task registered for `url`: `TaskNotFound` if there
    /// is none, `InvalidStateTransition` if `op` is not allowed from its
    /// status. On an error nothing changes.
    pub fn control(&mut self, url: &str, op: ControlOp) -> (r: Result<(), TransferError>)
        requires
            old(self).wf(),
        ensures
            final(self).wf(),
            !old(self)@.contains_key(url@) ==> r == Err::<(), TransferError>(
                TransferError::TaskNotFound,
            ) && final(self)@ == old(self)@,
            old(self)@.contains_key(url@) ==> match transition(old(self)@[url@].status, op) {
                Some(t) => r is Ok && final(self)@ == old(self)@.insert(
                    url@,
                    DownloadTask { status: t, ..old(self)@[url@] },
                ),
                None => r == Err::<(), TransferError>(TransferError::InvalidStateTransition)
                    && final(self)@ == old(self)@,
            },
    {
        match self.find(url) {
            None => Err(TransferError::TaskNotFound),
            Some(i) => {
                proof {
                    lemma_tasks_map_index(self.tasks@, i as int);
                }
                let next = apply_control(self.tasks[i].status, op)?;
                let mut t = copy_task(&self.tasks[i]);
                t.status = next;
                self.replace_at(i, t);
                Ok(())
            },
        }
    }

    /// Starts the transfer of a `Pending` task; see [`DownloadTaskManager::control`].
    pub fn start_task(&mut self, url: &str) -> (r: Result<(), TransferError>)
        requires
            old(self).wf(),
        ensures
            final(self).wf(),
            !old(self)@.contains_key(url@) ==> r == Err::<(), TransferError>(
                TransferError::TaskNotFound,
            ) && final(self)@ == old(self)@,
            old(self)@.contains_key(url@) ==> match transition(old(self)@[url@].status, ControlOp::Start) {
                Some(t) => r is Ok && final(self)@ == old(self)@.insert(
                    url@,
                    DownloadTask { status: t, ..old(self)@[url@] },
                ),
                None => r == Err::<(), TransferError>(TransferError::InvalidStateTransition)
                    && final(self)@ == old(self)@,
            },
    {
        self.control(url, ControlOp::Start)
    }

    /// Pauses a `Downloading` task; see [`DownloadTaskManager::control`].
    pub fn pause_task(&mut self, url: &str) -> (r: Result<(), TransferError>)
        requires
            old(self).wf(),
        ensures
            final(self).wf(),
            !old(self)@.contains_key(url@) ==> r == Err::<(), TransferError>(
                TransferError::TaskNotFound,
            ) && final(self)@ == old(self)@,
            old(self)@.contains_key(url@) ==> match transition(old(self)@[url@].status, ControlOp::Pause) {
                Some(t) => r is Ok && final(self)@ == old(self)@.insert(
                    url@,
                    DownloadTask { status: t, ..old(self)@[url@] },
                ),
                None => r == Err::<(), TransferError>(TransferError::InvalidStateTransition)
                    && final(self)@ == old(self)@,
            },
    {
        self.control(url, ControlOp::Pause)
    }

    /// Resumes a `Paused` task; see [`DownloadTaskManager::control`].
    pub fn resume_task(&mut self, url: &str) -> (r: Result<(), TransferError>)
        requires
            old(self).wf(),
        ensures
            final(self).wf(),
            !old(self)@.contains_key(url@) ==> r == Err::<(), TransferError>(
                TransferError::TaskNotFound,
            ) && final(self)@ == old(self)@,
            old(self)@.contains_key(url@) ==> match transition(old(self)@[url@].status, ControlOp::Resume) {
                Some(t) => r is Ok && final(self)@ == old(self)@.insert(
                    url@,
                    DownloadTask { status: t, ..old(self)@[url@] },
                ),
                None => r == Err::<(), TransferError>(TransferError::InvalidStateTransition)
                    && final(self)@ == old(self)@,
            },
    {
        self.control(url, ControlOp::Resume)
    }

    /// Cancels a `Downloading` or `Paused` task; see [`DownloadTaskManager::control`].
    pub fn cancel_task(&mut self, url: &str) -> (r: Result<(), TransferError>)
        requires
            old(self).wf(),
        ensures
            final(self).wf(),
            !old(self)@.contains_key(url@) ==> r == Err::<(), TransferError>(
                TransferError::TaskNotFound,
            ) && final(self)@ == old(self)@,
            old(self)@.contains_key(url@) ==> match transition(old(self)@[url@].status, ControlOp::Cancel) {
                Some(t) => r is Ok && final(self)@ == old(self)@.insert(
                    url@,
                    DownloadTask { status: t, ..old(self)@[url@] },
                ),
                None => r == Err::<(), TransferError>(TransferError::InvalidStateTransition)
                    && final(self)@ == old(self)@,
            },
    {
        self.control(url, ControlOp::Cancel)
    }

    /// Removes the task registered for `url`; `TaskNotFound` if none is.
    pub fn remove_task(&mut self, url: &str) -> (r: Result<(), TransferError>)
        requires
            old(self).wf(),
        ensures
            final(self).wf(),
            old(self)@.contains_key(url@) ==> r is Ok && final(self)@ == old(self)@.remove(url@),
            !old(self)@.contains_key(url@) ==> r == Err::<(), TransferError>(
                TransferError::TaskNotFound,
            ) && final(self)@ == old(self)@,
    {
        match self.find(url) {
            None => Err(TransferError::TaskNotFound),
            Some(i) => {
                let ghost before = self.tasks@;
                self.tasks.remove(i);
                proof {
                    lemma_tasks_map_remove(before, i as int);
                }
                Ok(())
            },
        }
    }

    /// Every registered task, once each.
    pub fn list(&self) -> (r: Vec<DownloadTask>)
        requires
            self.wf(),
        ensures
            r@.len() == self@.len(),
            unique_urls(r@),
            forall|i: int| 0 <= i < r@.len() ==> self@.contains_key((#[trigger] r@[i]).url@) && self@[r@[i].url@] == r@[i],
            forall|u: Seq<char>| #[trigger] self@.contains_key(u) ==> exists|i: int| 0 <= i < r@.len() && r@[i].url@ == u,
    {
        let mut out: Vec<DownloadTask> = Vec::new();
        let mut k: usize = 0;
        while k < self.tasks.len()
            invariant
                k <= self.tasks@.len(),
                out@ == self.tasks@.take(k as int),
            decreases self.tasks@.len() - k,
        {
            out.push(copy_task(&self.tasks[k]));
            assert(self.tasks@.take(k + 1) =~= self.tasks@.take(k as int).push(self.tasks@[k as int]));
            k = k + 1;
        }
        proof {
            assert(out@ =~= self.tasks@);
            lemma_tasks_map_size(self.tasks@);
            assert forall|i: int| 0 <= i < out@.len() implies self@.contains_key((#[trigger] out@[i]).url@) && self@[out@[i].url@] == out@[i] by {
                lemma_tasks_map_index(self.tasks@, i);
            }
            assert forall|u: Seq<char>| #[trigger] self@.contains_key(u) implies exists|i: int| 0 <= i < out@.len() && out@[i].url@ == u by {
                lemma_tasks_map_domain(self.tasks@, u);
            }
        }
        out
    }
}

proof fn lemma_tasks_map_size(s: Seq<DownloadTask>)
    requires
        unique_urls(s),
    ensures
        tasks_map(s).len() == s.len(),
        tasks_map(s).dom().finite(),
    decreases s.len(),
{
    if s.len() > 0 {
        let d = s.drop_last();
        assert(unique_urls(d)) by {
            assert forall|a: int, b: int| 0 <= a < b < d.len() implies (#[trigger] d[a]).url@
                != (#[trigger] d[b]).url@ by {
                assert(s[a].url@ != s[b].url@);
            }
        }
        lemma_tasks_map_size(d);
        lemma_tasks_map_domain(d, s.last().url@);
        if tasks_map(d).contains_key(s.last().url@) {
            let j = choose|j: int| 0 <= j < d.len() && (#[trigger] d[j]).url@ == s.last().url@;
            assert(s[j].url@ != s[s.len() - 1].url@);
        }
    }
}

} // verus!
