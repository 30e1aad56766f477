use vstd::prelude::*;

verus! {

/// Generation of the job configuration schema; the two generations obey
/// different quota rules.
#[derive(Clone, Copy, Debug, PartialEq, Eq, Structural)]
pub enum Version {
    API9,
    API10,
}

/// Execution mode of a job.
#[derive(Clone, Copy, Debug, PartialEq, Eq, Structural)]
pub enum Mode {
    BACKGROUND,
    FRONTEND,
}

/// Lifecycle state of a job.
#[derive(Clone, Copy, Debug, PartialEq, Eq, Structural)]
pub enum State {
    INITIALIZED,
    RUNNING,
    RETRYING,
    WAITING,
    PAUSED,
    STOPPED,
    COMPLETED,
    FAILED,
    REMOVED,
}

/// Why a job is in its current state.
#[derive(Clone, Copy, Debug, PartialEq, Eq, Structural)]
pub enum Reason {
    Default,
    UserOperation,
    RunningTaskMeetLimits,
    NetWorkOffline,
    UnSupportedNetWorkType,
    StoppedByNewFrontTask,
    TaskSurvivalOneMonth,
    WaittingNetWorkOneday,
    AppBackgroundOrTerminate,
    RequestError,
}

/// Result code of every manager operation.
#[derive(Clone, Copy, Debug, PartialEq, Eq, Structural)]
pub enum ErrorCode {
    /// The operation succeeded.
    ErrOk,
    /// No job with that identity is visible to the caller.
    TaskNotFound,
    /// The job's state does not allow the operation.
    TaskStateErr,
    /// The job's mode does not allow the operation, or a foreground job was
    /// asked for by an application that is not in the foreground.
    TaskModeErr,
    /// A quota is exhausted.
    TaskEnqueueErr,
    /// The service is retiring and admits nothing more.
    UnloadingSA,
}

pub open spec fn is_terminal(s: State) -> bool {
    s == State::STOPPED || s == State::COMPLETED || s == State::FAILED || s == State::REMOVED
}

/// States from which a job may be paused.
pub open spec fn is_active(s: State) -> bool {
    s == State::RUNNING || s == State::RETRYING || s == State::WAITING
}

pub open spec fn is_running(s: State) -> bool {
    s == State::RUNNING || s == State::RETRYING
}

pub open spec fn is_network_reason(r: Reason) -> bool {
    r == Reason::NetWorkOffline || r == Reason::UnSupportedNetWorkType
}

/// Whether a job record accepts a move from `from` to `to`: nothing leaves a
/// terminal state, and only an active job can be paused.
pub open spec fn transition_allowed(from: State, to: State) -> bool {
    !is_terminal(from) && (to == State::PAUSED ==> is_active(from))
}

pub fn state_is_terminal(s: State) -> (r: bool)
    ensures
        r == is_terminal(s),
{
    s == State::STOPPED || s == State::COMPLETED || s == State::FAILED || s == State::REMOVED
}

pub fn reason_is_network(r: Reason) -> (b: bool)
    ensures
        b == is_network_reason(r),
{
    r == Reason::NetWorkOffline || r == Reason::UnSupportedNetWorkType
}

/// The part of a job's configuration that the manager reads.
pub struct TaskConfig {
    pub version: Version,
    pub mode: Mode,
    pub bundle: String,
}

/// One job record.
pub struct Task {
    pub uid: u64,
    pub task_id: u32,
    pub conf: TaskConfig,
    /// Creation time, in seconds.
    pub ctime: u64,
    pub state: State,
    pub reason: Reason,
    /// When the job began to wait for the network, while it does.
    pub waiting_since: Option<u64>,
    pub retry: bool,
    pub tries: u32,
    /// Number of file handles the job holds.
    pub files: usize,
    pub mime_type: String,
    /// A legacy job that reached a terminal state: its files are released and
    /// it no longer counts as live, but its record stays queryable.
    pub retired: bool,
}

/// A read-only projection of a job.
pub struct TaskInfo {
    pub uid: u64,
    pub task_id: u32,
    pub version: Version,
    pub mode: Mode,
    pub bundle: String,
    pub ctime: u64,
    pub state: State,
    pub reason: Reason,
    pub retry: bool,
    pub tries: u32,
    pub mime_type: String,
}

/// The record after `set_status(state, reason)` at time `now`.
pub open spec fn status_set(t: Task, state: State, reason: Reason, now: u64) -> Task {
    if transition_allowed(t.state, state) {
        Task {
            state,
            reason,
            waiting_since: if state == State::WAITING && is_network_reason(reason) {
                Some(now)
            } else {
                None
            },
            ..t
        }
    } else {
        t
    }
}

/// The record once its files are released and it no longer counts as live.
pub open spec fn released(t: Task) -> Task {
    Task { retired: true, files: 0, ..t }
}

pub open spec fn info_of(t: Task) -> TaskInfo {
    TaskInfo {
        uid: t.uid,
        task_id: t.task_id,
        version: t.conf.version,
        mode: t.conf.mode,
        bundle: t.conf.bundle,
        ctime: t.ctime,
        state: t.state,
        reason: t.reason,
        retry: t.retry,
        tries: t.tries,
        mime_type: t.mime_type,
    }
}

impl Task {
    /// A fresh record, in state INITIALIZED.
    pub fn new(conf: TaskConfig, uid: u64, task_id: u32, files: usize, now: u64) -> (t: Task)
        ensures
            t.uid == uid,
            t.task_id == task_id,
            t.conf == conf,
            t.ctime == now,
            t.state == State::INITIALIZED,
            t.reason == Reason::Default,
            t.waiting_since is None,
            !t.retry,
            t.tries == 0,
            t.files == files,
            t.mime_type@.len() == 0,
            !t.retired,
    {
        Task {
            uid,
            task_id,
            conf,
            ctime: now,
            state: State::INITIALIZED,
            reason: Reason::Default,
            waiting_since: None,
            retry: false,
            tries: 0,
            files,
            mime_type: String::new(),
            retired: false,
        }
    }

    /// Moves the record to `state` for `reason` if the move is allowed;
    /// returns whether it was.
    pub fn set_status(&mut self, state: State, reason: Reason, now: u64) -> (r: bool)
        ensures
            r == transition_allowed(old(self).state, state),
            *final(self) == status_set(*old(self), state, reason, now),
    {
        if state_is_terminal(self.state) {
            return false;
        }
        if state == State::PAUSED && !(self.state == State::RUNNING || self.state == State::RETRYING
            || self.state == State::WAITING) {
            return false;
        }
        self.state = state;
        self.reason = reason;
        if state == State::WAITING && reason_is_network(reason) {
            self.waiting_since = Some(now);
        } else {
            self.waiting_since = None;
        }
        true
    }

    /// Releases the record's file handles and marks it retired.
    pub fn release(&mut self)
        ensures
            *final(self) == released(*old(self)),
    {
        self.retired = true;
        self.files = 0;
    }

    /// The record's public projection.
    pub fn show(&self) -> (info: TaskInfo)
        ensures
            info == info_of(*self),
    {
        TaskInfo {
            uid: self.uid,
            task_id: self.task_id,
            version: self.conf.version,
            mode: self.conf.mode,
            bundle: self.conf.bundle.clone(),
            ctime: self.ctime,
            state: self.state,
            reason: self.reason,
            retry: self.retry,
            tries: self.tries,
            mime_type: self.mime_type.clone(),
        }
    }
}

} // verus!
