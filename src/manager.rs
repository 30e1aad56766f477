use vstd::prelude::*;

use crate::count::{
    count_where, ind, lemma_count_none, lemma_count_push,
    lemma_count_remove, lemma_count_update,
};
use crate::task::{
    info_of, released, is_network_reason, reason_is_network, state_is_terminal, is_running, is_terminal, status_set, transition_allowed, ErrorCode,
    Mode, Reason, State, Task, TaskConfig, TaskInfo, Version,
};

verus! {

/// Most schema-V10 background jobs admitted at once, system-wide.
pub const MAX_TASK_COUNT: u32 = 300;

/// Most jobs registered at once for one application.
pub const MAX_TASK_COUNT_EACH_APP: usize = 10;

/// Most schema-V10 background jobs of one application running at once.
pub const MAX_RUNNING_TASK_COUNT_EACH_APP: usize = 5;

/// A job older than this many seconds is stopped by the periodic sweep.
pub const SECONDS_IN_ONE_MONTH: u64 = 2592000;

/// A job waiting for the network longer than this many seconds is stopped.
pub const SECONDS_IN_ONE_DAY: u64 = 86400;

/// Application state code of an application entering the foreground.
pub const APP_STATE_FOREGROUND: i32 = 2;

/// Application state code of an application leaving the foreground.
pub const APP_STATE_BACKGROUND: i32 = 4;

/// Application state code of an application that terminated.
pub const APP_STATE_TERMINATED: i32 = 5;

pub open spec fn foreground_state(state: i32) -> bool {
    state == APP_STATE_FOREGROUND
}

pub open spec fn background_or_terminated_state(state: i32) -> bool {
    state == APP_STATE_BACKGROUND || state == APP_STATE_TERMINATED
}

pub fn is_foreground(state: i32) -> (r: bool)
    ensures
        r == foreground_state(state),
{
    state == APP_STATE_FOREGROUND
}

pub fn is_background_or_terminated(state: i32) -> (r: bool)
    ensures
        r == background_or_terminated_state(state),
{
    state == APP_STATE_BACKGROUND || state == APP_STATE_TERMINATED
}

/// Keys of the waiting jobs of `s`, in order.
pub open spec fn waiting_keys(s: Seq<Task>) -> Seq<(u64, u32)>
    decreases s.len(),
{
    if s.len() == 0 {
        seq![]
    } else {
        waiting_keys(s.drop_last()) + if s.last().state == State::WAITING {
            seq![(s.last().uid, s.last().task_id)]
        } else {
            seq![]
        }
    }
}

/// Work that the host must carry out on the manager's behalf.
#[derive(Clone, Copy, Debug, PartialEq, Eq, Structural)]
pub enum Action {
    /// Execute the body of this job, then report it finished.
    Run { uid: u64, task_id: u32 },
    /// Start the idle-unload monitor, which polls `unload_check`.
    ArmUnloadMonitor,
}

/// Admission, quotas and lifecycle of the service's jobs.
///
/// Fields are public for reading; every change goes through the methods,
/// which keep `wf`.
pub struct TaskManager {
    /// Background jobs, grouped by their `uid`.
    pub tasks: Vec<Task>,
    /// The single foreground job slot.
    pub global_front_task: Option<Task>,
    /// The foreground job most recently displaced from the slot.
    pub displaced_front_task: Option<Task>,
    pub front_app_uid: Option<u64>,
    pub front_notify_time: u64,
    pub has_event_cb: bool,
    pub unloading: bool,
    pub total_task_count: u32,
    pub api10_background_task_count: u32,
    pub next_task_id: u32,
    pub unload_monitor_armed: bool,
    pub unload_requested: bool,
    /// Work handed to the host, oldest first.
    pub actions: Vec<Action>,
}

pub open spec fn live() -> spec_fn(Task) -> bool {
    |t: Task| !t.retired
}

pub open spec fn is_v10() -> spec_fn(Task) -> bool {
    |t: Task| t.conf.version == Version::API10
}

pub open spec fn of_uid(uid: u64) -> spec_fn(Task) -> bool {
    |t: Task| t.uid == uid
}

pub open spec fn running_v10_of(uid: u64) -> spec_fn(Task) -> bool {
    |t: Task| t.uid == uid && t.conf.version == Version::API10 && is_running(t.state)
}

/// Number of schema-V10 jobs of `uid` in RUNNING or RETRYING.
pub open spec fn running_count(s: Seq<Task>, uid: u64) -> nat {
    count_where(s, running_v10_of(uid))
}

pub open spec fn slot_live(slot: Option<Task>) -> nat {
    match slot {
        Some(f) => ind(!f.retired),
        None => 0,
    }
}

pub open spec fn has_task(s: Seq<Task>, uid: u64, task_id: u32) -> bool {
    exists|i: int| 0 <= i < s.len() && s[i].uid == uid && s[i].task_id == task_id
}

pub open spec fn index_of(s: Seq<Task>, uid: u64, task_id: u32) -> int {
    choose|i: int| 0 <= i < s.len() && s[i].uid == uid && s[i].task_id == task_id
}

pub open spec fn ids_unique(s: Seq<Task>) -> bool {
    forall|i: int, j: int|
        0 <= i < s.len() && 0 <= j < s.len() && i != j ==> s[i].task_id != s[j].task_id
}

/// A registered background job.
pub open spec fn map_task_ok(t: Task) -> bool {
    &&& t.conf.mode == Mode::BACKGROUND
    &&& retired_ok(t)
}

/// Only a legacy job in a terminal state is retired, and it holds no files.
pub open spec fn retired_ok(t: Task) -> bool {
    t.retired ==> t.conf.version == Version::API9 && is_terminal(t.state) && t.files == 0
}

/// Whether `uid` (or, with no foreground uid known, `bundle`) is the
/// foreground application; `top_bundle` is the platform's foreground bundle.
pub open spec fn front_app_matches(
    front_app_uid: Option<u64>,
    uid: u64,
    bundle: Seq<char>,
    top_bundle: Seq<char>,
) -> bool {
    match front_app_uid {
        None => bundle == top_bundle,
        Some(f) => f == uid,
    }
}

/// `t` is the record that admission builds.
pub open spec fn is_fresh(t: Task, conf: TaskConfig, uid: u64, task_id: u32, files: usize, now: u64) -> bool {
    &&& t.uid == uid
    &&& t.task_id == task_id
    &&& t.conf == conf
    &&& t.ctime == now
    &&& t.state == State::INITIALIZED
    &&& t.reason == Reason::Default
    &&& t.waiting_since is None
    &&& !t.retry
    &&& t.tries == 0
    &&& t.files == files
    &&& t.mime_type@.len() == 0
    &&& !t.retired
}

/// `b` is `a` after admission of the foreground job of configuration
/// `conf` for `uid`: the new job holds the slot, and the job that held it
/// is stopped and set aside.
pub open spec fn front_admitted(a: &TaskManager, b: &TaskManager, conf: TaskConfig, uid: u64, files: usize, now: u64) -> bool {
    &&& b.tasks@ == a.tasks@
    &&& b.global_front_task matches Some(t) && is_fresh(t, conf, uid, a.next_task_id, files, now)
    &&& b.displaced_front_task == match a.global_front_task {
        Some(p) => Some(status_set(p, State::STOPPED, Reason::StoppedByNewFrontTask, now)),
        None => a.displaced_front_task,
    }
    &&& b.total_task_count == a.total_task_count + 1 - slot_live(a.global_front_task)
    &&& b.api10_background_task_count == a.api10_background_task_count
}

/// Two sequences hold the same jobs in the same places; only their status
/// may differ.
pub open spec fn same_jobs(a: Seq<Task>, b: Seq<Task>) -> bool {
    &&& a.len() == b.len()
    &&& forall|i: int|
        0 <= i < a.len() ==> {
            &&& (#[trigger] b[i]).uid == a[i].uid
            &&& b[i].task_id == a[i].task_id
            &&& b[i].conf == a[i].conf
            &&& b[i].ctime == a[i].ctime
            &&& b[i].retired == a[i].retired
        }
}

pub open spec fn bump(n: u32) -> u32 {
    if n < u32::MAX {
        (n + 1) as u32
    } else {
        n
    }
}

/// Whether the start gate holds `t` back: a schema-V10 background job whose
/// application already runs `running` jobs at the cap.
pub open spec fn gated(t: Task, running: nat) -> bool {
    t.conf.version == Version::API10 && t.conf.mode == Mode::BACKGROUND && running
        >= MAX_RUNNING_TASK_COUNT_EACH_APP
}

/// The record after the start gate, with `running` jobs of its application
/// running and the network reachable or not.
pub open spec fn started(t: Task, running: nat, online: bool, now: u64) -> Task {
    if !online {
        t
    } else if gated(t, running) {
        status_set(t, State::WAITING, Reason::RunningTaskMeetLimits, now)
    } else if t.state == State::WAITING && is_network_reason(t.reason) {
        status_set(Task { retry: true, tries: bump(t.tries), ..t }, State::RETRYING, Reason::Default, now)
    } else {
        status_set(t, State::RUNNING, Reason::Default, now)
    }
}

/// Whether the start gate hands the job to execution.
pub open spec fn start_runs(t: Task, running: nat, online: bool) -> bool {
    online && !gated(t, running)
}

pub open spec fn run_action(run: bool, t: Task) -> Seq<Action> {
    if run {
        seq![Action::Run { uid: t.uid, task_id: t.task_id }]
    } else {
        seq![]
    }
}

/// The start gate on one record: with the network unreachable nothing
/// happens; a job over its application's running cap waits; a job that
/// waited for the network retries; any other job runs. Returns whether
/// the job is to be executed.
pub fn start_inner(t: &mut Task, running: usize, online: bool, now: u64) -> (run: bool)
    ensures
        *final(t) == started(*old(t), running as nat, online, now),
        run == start_runs(*old(t), running as nat, online),
{
    if !online {
        return false;
    }
    if t.conf.version == Version::API10 && t.conf.mode == Mode::BACKGROUND && running
        >= MAX_RUNNING_TASK_COUNT_EACH_APP {
        t.set_status(State::WAITING, Reason::RunningTaskMeetLimits, now);
        return false;
    }
    if t.state == State::WAITING && reason_is_network(t.reason) {
        t.retry = true;
        if t.tries < u32::MAX {
            t.tries = t.tries + 1;
        }
        t.set_status(State::RETRYING, Reason::Default, now);
    } else {
        t.set_status(State::RUNNING, Reason::Default, now);
    }
    true
}

proof fn lemma_tasks_update(s: Seq<Task>, i: int, x: Task)
    requires
        0 <= i < s.len(),
        x.uid == s[i].uid,
        x.task_id == s[i].task_id,
        x.conf == s[i].conf,
    ensures
        count_where(s.update(i, x), live()) + ind(!s[i].retired) == count_where(s, live()) + ind(
            !x.retired,
        ),
        count_where(s.update(i, x), is_v10()) == count_where(s, is_v10()),
        ids_unique(s) ==> ids_unique(s.update(i, x)),
        forall|u: u64| u != x.uid ==> #[trigger] running_count(s.update(i, x), u) == running_count(s, u),
        running_count(s.update(i, x), x.uid) + ind(running_v10_of(x.uid)(s[i])) == running_count(
            s,
            x.uid,
        ) + ind(running_v10_of(x.uid)(x)),
{
    lemma_count_update(s, i, x, live());
    lemma_count_update(s, i, x, is_v10());
    lemma_count_update(s, i, x, running_v10_of(x.uid));
    assert forall|u: u64| u != x.uid implies #[trigger] running_count(s.update(i, x), u) == running_count(s, u) by {
        lemma_count_update(s, i, x, running_v10_of(u));
    }
}

/// The background jobs, the foreground slot, the total counter and the
/// schema-V10 counter.
pub type Registry = (Seq<Task>, Option<Task>, int, int);

pub open spec fn reg_in_slot(r: Registry, task_id: u32) -> bool {
    r.1 matches Some(f) && f.task_id == task_id
}

pub open spec fn reg_lookup(r: Registry, uid: u64, task_id: u32) -> Option<Task> {
    if reg_in_slot(r, task_id) {
        r.1
    } else if has_task(r.0, uid, task_id) {
        Some(r.0[index_of(r.0, uid, task_id)])
    } else {
        None
    }
}

/// `r` with the job that `uid` sees as `task_id` replaced by `t`.
pub open spec fn reg_with(r: Registry, uid: u64, task_id: u32, t: Task) -> Registry {
    if reg_in_slot(r, task_id) {
        (r.0, Some(t), r.2, r.3)
    } else {
        (r.0.update(index_of(r.0, uid, task_id), t), r.1, r.2, r.3)
    }
}

/// A legacy job that ends otherwise than by removal keeps its record.
pub open spec fn soft_retire(t: Task) -> bool {
    t.conf.version == Version::API9 && t.state != State::REMOVED
}

/// The record after removal is forced on it.
pub open spec fn forced_removed(t: Task) -> Task {
    Task { state: State::REMOVED, reason: Reason::UserOperation, waiting_since: None, ..t }
}

/// The registry once a job's execution ended in `state` (which it takes if
/// it is terminal and the job accepts it).
pub open spec fn after_status(r: Registry, uid: u64, task_id: u32, state: State, reason: Reason, now: u64) -> Registry {
    if reg_lookup(r, uid, task_id) is Some && is_terminal(state) {
        reg_with(r, uid, task_id, status_set(reg_lookup(r, uid, task_id)->0, state, reason, now))
    } else {
        r
    }
}

/// A schema-V10 job older than a month.
pub open spec fn age_overdue(t: Task, now: u64) -> bool {
    t.conf.version == Version::API10 && now > t.ctime + SECONDS_IN_ONE_MONTH
}

/// A job that has waited for the network longer than a day.
pub open spec fn wait_overdue(t: Task, now: u64) -> bool {
    t.state == State::WAITING && (t.waiting_since matches Some(w) && now > w + SECONDS_IN_ONE_DAY)
}

pub open spec fn overdue(t: Task, now: u64) -> bool {
    age_overdue(t, now) || wait_overdue(t, now)
}

/// The key of `t` is among `keys` from position `k` on.
pub open spec fn pending(keys: Seq<(u64, u32)>, k: int, t: Task) -> bool {
    exists|m: int| k <= m < keys.len() && keys[m] == (t.uid, t.task_id)
}

/// Each job of `b` is the one of `a` at its place, except that waiting jobs
/// may have gone through the start gate (and then wait no longer for the
/// network).
pub open spec fn only_waiting_restarted(a: Seq<Task>, b: Seq<Task>) -> bool {
    &&& same_jobs(a, b)
    &&& forall|i: int|
        0 <= i < a.len() ==> #[trigger] b[i] == a[i] || (a[i].state == State::WAITING
            && b[i].waiting_since is None && !is_terminal(b[i].state))
}

/// The owner `uid`'s waiting jobs of `s`, from position `i` on, offered to
/// the start gate one after the other.
pub open spec fn gate_from(s: Seq<Task>, uid: u64, i: int, online: bool, now: u64) -> Seq<Task>
    decreases s.len() - i,
{
    if !(0 <= i < s.len()) {
        s
    } else if s[i].uid == uid && s[i].state == State::WAITING {
        gate_from(s.update(i, started(s[i], running_count(s, uid), online, now)), uid, i + 1, online, now)
    } else {
        gate_from(s, uid, i + 1, online, now)
    }
}

/// The jobs handed to execution by `gate_from`, in order.
pub open spec fn gate_runs(s: Seq<Task>, uid: u64, i: int, online: bool, now: u64) -> Seq<Action>
    decreases s.len() - i,
{
    if !(0 <= i < s.len()) {
        seq![]
    } else if s[i].uid == uid && s[i].state == State::WAITING {
        run_action(start_runs(s[i], running_count(s, uid), online), s[i]) + gate_runs(
            s.update(i, started(s[i], running_count(s, uid), online, now)),
            uid,
            i + 1,
            online,
            now,
        )
    } else {
        gate_runs(s, uid, i + 1, online, now)
    }
}

/// Retirement of the job that `uid` sees as `task_id`, from `a` to `b`.
/// Nothing happens to a missing or unfinished job. A legacy job that did not
/// end by removal is released and stays. Any other job leaves the registry
/// and the counters; when it was a schema-V10 background job, its owner's
/// waiting jobs then go through the start gate in order (`gate_from`), and
/// no other job changes.
pub open spec fn retire_step(a: Registry, b: Registry, uid: u64, task_id: u32, online: bool, now: u64) -> bool {
    b == retired(a, uid, task_id, online, now)
}

/// The registry after the retirement described by `retire_step`.
pub open spec fn retired(a: Registry, uid: u64, task_id: u32, online: bool, now: u64) -> Registry {
    let lt = reg_lookup(a, uid, task_id);
    let t = lt->0;
    if lt is None || !is_terminal(t.state) {
        a
    } else if soft_retire(t) {
        (reg_with(a, uid, task_id, released(t)).0, reg_with(a, uid, task_id, released(t)).1, a.2
            - ind(!t.retired), a.3)
    } else if reg_in_slot(a, task_id) {
        (a.0, None::<Task>, a.2 - ind(!t.retired), a.3)
    } else {
        let rest = a.0.remove(index_of(a.0, uid, task_id));
        (
            if t.conf.version == Version::API10 {
                gate_from(rest, t.uid, 0, online, now)
            } else {
                rest
            },
            a.1,
            a.2 - ind(!t.retired),
            a.3 - ind(t.conf.version == Version::API10),
        )
    }
}

/// The registry after retiring the jobs of `keys` from position `k` on, in
/// order.
pub open spec fn retire_all(r: Registry, keys: Seq<(u64, u32)>, k: int, online: bool, now: u64) -> Registry
    decreases keys.len() - k,
{
    if !(0 <= k < keys.len()) {
        r
    } else {
        retire_all(retired(r, keys[k].0, keys[k].1, online, now), keys, k + 1, online, now)
    }
}

/// The jobs handed to execution by `retire_all`, in order.
pub open spec fn retire_all_runs(r: Registry, keys: Seq<(u64, u32)>, k: int, online: bool, now: u64) -> Seq<Action>
    decreases keys.len() - k,
{
    if !(0 <= k < keys.len()) {
        seq![]
    } else {
        retire_runs(r, keys[k].0, keys[k].1, online, now) + retire_all_runs(
            retired(r, keys[k].0, keys[k].1, online, now),
            keys,
            k + 1,
            online,
            now,
        )
    }
}

/// The record after the sweep's first pass: a schema-V10 job older than a
/// month is stopped for its age, else a job waiting for the network longer
/// than a day is stopped for its wait; any other job is left alone.
pub open spec fn sweep_mark(t: Task, now: u64) -> Task {
    if age_overdue(t, now) {
        status_set(t, State::STOPPED, Reason::TaskSurvivalOneMonth, now)
    } else if wait_overdue(t, now) {
        status_set(t, State::STOPPED, Reason::WaittingNetWorkOneday, now)
    } else {
        t
    }
}

/// Keys of the overdue jobs of `s`, in order.
pub open spec fn overdue_keys(s: Seq<Task>, now: u64) -> Seq<(u64, u32)>
    decreases s.len(),
{
    if s.len() == 0 {
        seq![]
    } else {
        overdue_keys(s.drop_last(), now) + if overdue(s.last(), now) {
            seq![(s.last().uid, s.last().task_id)]
        } else {
            seq![]
        }
    }
}

pub open spec fn slot_due(slot: Option<Task>, now: u64) -> bool {
    slot matches Some(f) && overdue(f, now)
}

/// The registry after the sweep of the foreground job: an overdue one is
/// stopped (`sweep_mark`) and retires.
pub open spec fn sweep_slot_reg(r: Registry, online: bool, now: u64) -> Registry {
    match r.1 {
        Some(f) => if overdue(f, now) {
            retired((r.0, Some(sweep_mark(f, now)), r.2, r.3), f.uid, f.task_id, online, now)
        } else {
            r
        },
        None => r,
    }
}

/// The registry after the sweep's first pass.
pub open spec fn sweep_marked(r: Registry, now: u64) -> Registry {
    (r.0.map_values(|t: Task| sweep_mark(t, now)), r.1, r.2, r.3)
}

/// The jobs that the retirement described by `retire_step` hands to
/// execution.
pub open spec fn retire_runs(a: Registry, uid: u64, task_id: u32, online: bool, now: u64) -> Seq<Action> {
    let lt = reg_lookup(a, uid, task_id);
    let t = lt->0;
    if lt is Some && is_terminal(t.state) && !soft_retire(t) && !reg_in_slot(a, task_id)
        && t.conf.version == Version::API10 {
        gate_runs(a.0.remove(index_of(a.0, uid, task_id)), t.uid, 0, online, now)
    } else {
        seq![]
    }
}

/// The request to arm the idle-unload monitor, made when no job is live and
/// the monitor was not armed before.
pub open spec fn arm_action(armed: bool, total: u32) -> Seq<Action> {
    if !armed && total == 0 {
        seq![Action::ArmUnloadMonitor]
    } else {
        seq![]
    }
}

/// Going through the start gate leaves every job in place, changes only the
/// owner's waiting jobs, and none of them waits for the network afterwards.
pub proof fn lemma_gate_restarts(s: Seq<Task>, uid: u64, i: int, online: bool, now: u64)
    requires
        0 <= i <= s.len(),
    ensures
        only_waiting_restarted(s, gate_from(s, uid, i, online, now)),
        forall|j: int|
            0 <= j < s.len() && (s[j].uid != uid || j < i) ==> #[trigger] gate_from(s, uid, i, online, now)[j]
                == s[j],
    decreases s.len() - i,
{
    if i < s.len() {
        if s[i].uid == uid && s[i].state == State::WAITING {
            let s2 = s.update(i, started(s[i], running_count(s, uid), online, now));
            lemma_gate_restarts(s2, uid, i + 1, online, now);
            let g = gate_from(s2, uid, i + 1, online, now);
            assert(g[i] == s2[i]);
            assert forall|j: int| 0 <= j < s.len() implies #[trigger] g[j] == s[j] || (s[j].state
                == State::WAITING && g[j].waiting_since is None && !is_terminal(g[j].state)) by {
                if j != i {
                    assert(s2[j] == s[j]);
                }
            }
            assert forall|j: int| 0 <= j < s.len() && (s[j].uid != uid || j < i) implies #[trigger] g[j] == s[j] by {
                assert(s2[j] == s[j]);
            }
        } else {
            lemma_gate_restarts(s, uid, i + 1, online, now);
        }
    }
}

impl TaskManager {
    /// The registry's invariant.
    pub open spec fn wf(&self) -> bool {
        let s = self.tasks@;
        &&& ids_unique(s)
        &&& forall|i: int|
            0 <= i < s.len() ==> (#[trigger] s[i]).task_id < self.next_task_id && map_task_ok(s[i])
        &&& self.global_front_task matches Some(f) ==> {
            &&& f.task_id < self.next_task_id
            &&& f.conf.mode == Mode::FRONTEND
            &&& retired_ok(f)
            &&& forall|i: int| 0 <= i < s.len() ==> (#[trigger] s[i]).task_id != f.task_id
        }
        &&& self.total_task_count == count_where(s, live()) + slot_live(self.global_front_task)
        &&& self.api10_background_task_count == count_where(s, is_v10())
        &&& self.api10_background_task_count <= MAX_TASK_COUNT
        &&& self.total_task_count < self.next_task_id
        &&& forall|u: u64| #[trigger] running_count(s, u) <= MAX_RUNNING_TASK_COUNT_EACH_APP
    }

    pub open spec fn in_slot(&self, task_id: u32) -> bool {
        self.global_front_task matches Some(f) && f.task_id == task_id
    }

    /// The job that `uid` sees under `task_id`: the foreground slot first,
    /// then the application's own jobs.
    pub open spec fn lookup(&self, uid: u64, task_id: u32) -> Option<Task> {
        if self.in_slot(task_id) {
            self.global_front_task
        } else if has_task(self.tasks@, uid, task_id) {
            Some(self.tasks@[index_of(self.tasks@, uid, task_id)])
        } else {
            None
        }
    }

    /// The job that a query by `uid` for `task_id` finds: a registered job,
    /// else the foreground job last displaced from the slot.
    pub open spec fn visible(&self, uid: u64, task_id: u32) -> Option<Task> {
        if self.lookup(uid, task_id) is Some {
            self.lookup(uid, task_id)
        } else if self.displaced_front_task matches Some(d) && d.task_id == task_id {
            self.displaced_front_task
        } else {
            None
        }
    }

    /// The settings that job operations leave alone.
    pub open spec fn same_settings(&self, other: &TaskManager) -> bool {
        &&& self.same_config(other)
        &&& self.unload_monitor_armed == other.unload_monitor_armed
    }

    pub open spec fn same_config(&self, other: &TaskManager) -> bool {
        &&& self.front_app_uid == other.front_app_uid
        &&& self.front_notify_time == other.front_notify_time
        &&& self.has_event_cb == other.has_event_cb
        &&& self.unloading == other.unloading
        &&& self.unload_requested == other.unload_requested
    }

    /// Whether an idle-unload check now asks to retire the service: no job
    /// is live and no unload was requested before.
    pub open spec fn unload_due(&self) -> bool {
        self.total_task_count == 0 && !self.unload_requested
    }

    /// The manager's jobs and counters.
    pub open spec fn reg(&self) -> Registry {
        (
            self.tasks@,
            self.global_front_task,
            self.total_task_count as int,
            self.api10_background_task_count as int,
        )
    }

    /// Everything but the work handed out is the same.
    pub open spec fn same_registry(&self, other: &TaskManager) -> bool {
        &&& self.same_settings(other)
        &&& self.next_task_id == other.next_task_id
        &&& self.tasks@ == other.tasks@
        &&& self.global_front_task == other.global_front_task
        &&& self.displaced_front_task == other.displaced_front_task
        &&& self.total_task_count == other.total_task_count
        &&& self.api10_background_task_count == other.api10_background_task_count
    }

    /// `self` is `old` with the job that `uid` sees as `task_id` replaced by
    /// `t`.
    pub open spec fn task_replaced(&self, old: &TaskManager, uid: u64, task_id: u32, t: Task) -> bool {
        &&& self.same_settings(old)
        &&& self.next_task_id == old.next_task_id
        &&& self.displaced_front_task == old.displaced_front_task
        &&& self.total_task_count == old.total_task_count
        &&& self.api10_background_task_count == old.api10_background_task_count
        &&& if old.in_slot(task_id) {
            self.tasks@ == old.tasks@ && self.global_front_task == Some(t)
        } else {
            self.tasks@ == old.tasks@.update(index_of(old.tasks@, uid, task_id), t)
                && self.global_front_task == old.global_front_task
        }
    }

    /// `task` is a fresh background job that can join the registry: its
    /// identity is the newest handed out, above every registered one.
    pub open spec fn can_place(&self, task: Task) -> bool {
        &&& self.wf()
        &&& task.conf.mode == Mode::BACKGROUND
        &&& task.state == State::INITIALIZED
        &&& !task.retired
        &&& task.task_id + 1 == self.next_task_id
        &&& forall|i: int| 0 <= i < self.tasks@.len() ==> (#[trigger] self.tasks@[i]).task_id < task.task_id
        &&& self.global_front_task matches Some(f) ==> f.task_id < task.task_id
        &&& self.total_task_count + 1 < self.next_task_id
    }

    /// `self` is `old` with `task` appended and counted.
    pub open spec fn placed(&self, old: &TaskManager, task: Task) -> bool {
        &&& self.wf()
        &&& self.tasks@ == old.tasks@.push(task)
        &&& self.same_settings(old)
        &&& self.next_task_id == old.next_task_id
        &&& self.global_front_task == old.global_front_task
        &&& self.displaced_front_task == old.displaced_front_task
        &&& self.total_task_count == old.total_task_count + 1
        &&& self.api10_background_task_count == old.api10_background_task_count + ind(
            task.conf.version == Version::API10,
        )
        &&& self.actions@ == old.actions@
    }

    /// What admission of a job with `conf` for `uid` returns.
    pub open spec fn admission_result(&self, conf: TaskConfig, uid: u64, top_bundle: Seq<char>) -> ErrorCode {
        if self.unloading {
            ErrorCode::UnloadingSA
        } else if conf.mode == Mode::FRONTEND {
            if front_app_matches(self.front_app_uid, uid, conf.bundle@, top_bundle) {
                ErrorCode::ErrOk
            } else {
                ErrorCode::TaskModeErr
            }
        } else if conf.version == Version::API10 && (self.api10_background_task_count >= MAX_TASK_COUNT
            || count_where(self.tasks@, of_uid(uid)) >= MAX_TASK_COUNT_EACH_APP) {
            ErrorCode::TaskEnqueueErr
        } else {
            ErrorCode::ErrOk
        }
    }

    /// An empty manager.
    pub fn new(now: u64) -> (m: TaskManager)
        ensures
            m.wf(),
            m.tasks@.len() == 0,
            m.global_front_task is None,
            m.displaced_front_task is None,
            m.front_app_uid is None,
            m.front_notify_time == now,
            !m.has_event_cb,
            !m.unloading,
            m.total_task_count == 0,
            m.api10_background_task_count == 0,
            m.next_task_id == 1,
            !m.unload_monitor_armed,
            !m.unload_requested,
            m.actions@.len() == 0,
    {
        TaskManager {
            tasks: Vec::new(),
            global_front_task: None,
            displaced_front_task: None,
            front_app_uid: None,
            front_notify_time: now,
            has_event_cb: false,
            unloading: false,
            total_task_count: 0,
            api10_background_task_count: 0,
            next_task_id: 1,
            unload_monitor_armed: false,
            unload_requested: false,
            actions: Vec::new(),
        }
    }

    /// Drops every job and resets both counters.
    pub fn clear_all_task(&mut self)
        requires
            old(self).wf(),
        ensures
            final(self).wf(),
            final(self).same_settings(old(self)),
            final(self).next_task_id == old(self).next_task_id,
            final(self).tasks@.len() == 0,
            final(self).global_front_task is None,
            final(self).displaced_front_task == old(self).displaced_front_task,
            final(self).total_task_count == 0,
            final(self).api10_background_task_count == 0,
            final(self).actions@ == old(self).actions@,
    {
        self.global_front_task = None;
        self.tasks.clear();
        self.total_task_count = 0;
        self.api10_background_task_count = 0;
        proof {
            assert forall|u: u64| #[trigger] running_count(self.tasks@, u) <= MAX_RUNNING_TASK_COUNT_EACH_APP by {
                lemma_count_none(self.tasks@, running_v10_of(u));
            }
        }
    }

    pub fn get_total_task_count(&self) -> (r: u32)
        ensures
            r == self.total_task_count,
    {
        self.total_task_count
    }

    pub fn get_api10_background_task_count(&self) -> (r: u32)
        ensures
            r == self.api10_background_task_count,
    {
        self.api10_background_task_count
    }

    pub fn has_event_callback(&self) -> (r: bool)
        ensures
            r == self.has_event_cb,
    {
        self.has_event_cb
    }

    /// Records that the host now holds a notification callback.
    pub fn register_callback(&mut self)
        ensures
            final(self).has_event_cb,
            final(self).tasks@ == old(self).tasks@,
            final(self).global_front_task == old(self).global_front_task,
            final(self).displaced_front_task == old(self).displaced_front_task,
            final(self).front_app_uid == old(self).front_app_uid,
            final(self).front_notify_time == old(self).front_notify_time,
            final(self).unloading == old(self).unloading,
            final(self).total_task_count == old(self).total_task_count,
            final(self).api10_background_task_count == old(self).api10_background_task_count,
            final(self).next_task_id == old(self).next_task_id,
            final(self).unload_monitor_armed == old(self).unload_monitor_armed,
            final(self).unload_requested == old(self).unload_requested,
            final(self).actions@ == old(self).actions@,
    {
        self.has_event_cb = true;
    }

    /// Whether `uid` with `bundle` is the foreground application.
    pub fn is_front_app(&self, uid: u64, bundle: &String, top_bundle: &String) -> (r: bool)
        ensures
            r == front_app_matches(self.front_app_uid, uid, bundle@, top_bundle@),
    {
        match self.front_app_uid {
            None => bundle.eq(top_bundle),
            Some(f) => f == uid,
        }
    }

    /// Decides whether a notification about `uid`/`bundle` goes out: only
    /// with a callback registered and for the foreground application. When
    /// it does, the time of the last notification becomes `now`.
    pub fn front_notify(&mut self, uid: u64, bundle: &String, top_bundle: &String, now: u64) -> (r: bool)
        ensures
            r == (old(self).has_event_cb && front_app_matches(
                old(self).front_app_uid,
                uid,
                bundle@,
                top_bundle@,
            )),
            final(self).front_notify_time == if r {
                now
            } else {
                old(self).front_notify_time
            },
            final(self).tasks@ == old(self).tasks@,
            final(self).global_front_task == old(self).global_front_task,
            final(self).displaced_front_task == old(self).displaced_front_task,
            final(self).front_app_uid == old(self).front_app_uid,
            final(self).has_event_cb == old(self).has_event_cb,
            final(self).unloading == old(self).unloading,
            final(self).total_task_count == old(self).total_task_count,
            final(self).api10_background_task_count == old(self).api10_background_task_count,
            final(self).next_task_id == old(self).next_task_id,
            final(self).unload_monitor_armed == old(self).unload_monitor_armed,
            final(self).unload_requested == old(self).unload_requested,
            final(self).actions@ == old(self).actions@,
    {
        if !self.has_event_cb || !self.is_front_app(uid, bundle, top_bundle) {
            return false;
        }
        self.front_notify_time = now;
        true
    }

    /// Number of jobs registered for `uid`.
    fn app_task_count(&self, uid: u64) -> (r: usize)
        ensures
            r == count_where(self.tasks@, of_uid(uid)),
    {
        let mut n: usize = 0;
        let mut i: usize = 0;
        while i < self.tasks.len()
            invariant
                i <= self.tasks@.len(),
                n == count_where(self.tasks@.subrange(0, i as int), of_uid(uid)),
                n <= i,
            decreases self.tasks@.len() - i,
        {
            proof {
                assert(self.tasks@.subrange(0, i + 1).drop_last() =~= self.tasks@.subrange(0, i as int));
            }
            if self.tasks[i].uid == uid {
                n = n + 1;
            }
            i = i + 1;
        }
        proof {
            assert(self.tasks@.subrange(0, i as int) =~= self.tasks@);
        }
        n
    }

    /// Number of schema-V10 jobs of `uid` in RUNNING or RETRYING.
    pub fn get_running_background_task_count(&self, uid: u64) -> (r: usize)
        ensures
            r == running_count(self.tasks@, uid),
    {
        let mut n: usize = 0;
        let mut i: usize = 0;
        while i < self.tasks.len()
            invariant
                i <= self.tasks@.len(),
                n == count_where(self.tasks@.subrange(0, i as int), running_v10_of(uid)),
                n <= i,
            decreases self.tasks@.len() - i,
        {
            proof {
                assert(self.tasks@.subrange(0, i + 1).drop_last() =~= self.tasks@.subrange(0, i as int));
            }
            let t = &self.tasks[i];
            if t.uid == uid && t.conf.version == Version::API10 && (t.state == State::RUNNING
                || t.state == State::RETRYING) {
                n = n + 1;
            }
            i = i + 1;
        }
        proof {
            assert(self.tasks@.subrange(0, i as int) =~= self.tasks@);
        }
        n
    }

    /// Position of `uid`'s job `task_id` among the background jobs.
    fn find_task(&self, uid: u64, task_id: u32) -> (r: Option<usize>)
        requires
            self.wf(),
        ensures
            r is None ==> !has_task(self.tasks@, uid, task_id),
            r matches Some(i) ==> has_task(self.tasks@, uid, task_id) && i == index_of(
                self.tasks@,
                uid,
                task_id,
            ) && i < self.tasks@.len(),
    {
        let mut i: usize = 0;
        while i < self.tasks.len()
            invariant
                self.wf(),
                i <= self.tasks@.len(),
                forall|j: int|
                    0 <= j < i ==> !(self.tasks@[j].uid == uid && self.tasks@[j].task_id == task_id),
            decreases self.tasks@.len() - i,
        {
            if self.tasks[i].uid == uid && self.tasks[i].task_id == task_id {
                proof {
                    let k = index_of(self.tasks@, uid, task_id);
                    assert(has_task(self.tasks@, uid, task_id));
                    assert(self.tasks@[k].task_id == task_id);
                    assert(self.tasks@[i as int].task_id == task_id);
                    assert(k == i as int);
                }
                return Some(i);
            }
            i = i + 1;
        }
        None
    }

    /// Admits a job of configuration `conf` for application `uid`, with
    /// `files` file handles, at time `now`; `top_bundle` is the bundle the
    /// platform reports in the foreground. The job's fresh identity is
    /// written to `task_id` whatever the outcome.
    ///
    /// A foreground job takes the foreground slot and stops the job that
    /// held it; a background job joins its application's jobs.
    pub fn construct_task(
        &mut self,
        conf: TaskConfig,
        uid: u64,
        task_id: &mut u32,
        files: usize,
        top_bundle: &String,
        now: u64,
    ) -> (r: ErrorCode)
        requires
            old(self).wf(),
            old(self).next_task_id < u32::MAX,
        ensures
            final(self).wf(),
            r == old(self).admission_result(conf, uid, top_bundle@),
            *final(task_id) == old(self).next_task_id,
            final(self).next_task_id == old(self).next_task_id + 1,
            final(self).same_settings(old(self)),
            final(self).actions@ == old(self).actions@,
            r != ErrorCode::ErrOk ==> {
                &&& final(self).tasks@ == old(self).tasks@
                &&& final(self).global_front_task == old(self).global_front_task
                &&& final(self).displaced_front_task == old(self).displaced_front_task
                &&& final(self).total_task_count == old(self).total_task_count
                &&& final(self).api10_background_task_count == old(
                    self,
                ).api10_background_task_count
            },
            r == ErrorCode::ErrOk && conf.mode == Mode::FRONTEND ==> front_admitted(
                old(self),
                final(self),
                conf,
                uid,
                files,
                now,
            ),
            r == ErrorCode::ErrOk && conf.mode == Mode::BACKGROUND ==> {
                &&& final(self).tasks@.len() == old(self).tasks@.len() + 1
                &&& final(self).tasks@.drop_last() == old(self).tasks@
                &&& is_fresh(final(self).tasks@.last(), conf, uid, old(self).next_task_id, files, now)
                &&& final(self).global_front_task == old(self).global_front_task
                &&& final(self).displaced_front_task == old(self).displaced_front_task
                &&& final(self).total_task_count == old(self).total_task_count + 1
                &&& final(self).api10_background_task_count == old(self).api10_background_task_count
                    + ind(conf.version == Version::API10)
            },
    {
        let id = self.next_task_id;
        *task_id = id;
        self.next_task_id = id + 1;
        if self.unloading {
            return ErrorCode::UnloadingSA;
        }
        let mode = conf.mode;
        let version = conf.version;
        if mode == Mode::FRONTEND {
            if !self.is_front_app(uid, &conf.bundle, top_bundle) {
                return ErrorCode::TaskModeErr;
            }
            let task = Task::new(conf, uid, id, files, now);
            let prev = self.global_front_task.take();
            match prev {
                None => {
                    self.total_task_count = self.total_task_count + 1;
                },
                Some(p) => {
                    let mut p = p;
                    p.set_status(State::STOPPED, Reason::StoppedByNewFrontTask, now);
                    if p.retired {
                        self.total_task_count = self.total_task_count + 1;
                    }
                    self.displaced_front_task = Some(p);
                },
            }
            self.global_front_task = Some(task);
            return ErrorCode::ErrOk;
        }
        let task = Task::new(conf, uid, id, files, now);
        match version {
            Version::API10 => {
                if !self.add_task(task) {
                    return ErrorCode::TaskEnqueueErr;
                }
                ErrorCode::ErrOk
            },
            Version::API9 => {
                self.add_task_api9(task);
                ErrorCode::ErrOk
            },
        }
    }

    /// Places a legacy background job; nothing caps it.
    fn add_task_api9(&mut self, task: Task)
        requires
            old(self).can_place(task),
            task.conf.version == Version::API9,
        ensures
            final(self).placed(old(self), task),
    {
        self.push_task(task);
    }

    /// Places a schema-V10 background job unless the system-wide or the
    /// application's quota is used up; returns whether it was placed.
    fn add_task(&mut self, task: Task) -> (r: bool)
        requires
            old(self).can_place(task),
            task.conf.version == Version::API10,
        ensures
            r == (old(self).api10_background_task_count < MAX_TASK_COUNT && count_where(
                old(self).tasks@,
                of_uid(task.uid),
            ) < MAX_TASK_COUNT_EACH_APP),
            r ==> final(self).placed(old(self), task),
            !r ==> final(self).same_registry(old(self)) && final(self).actions@ == old(self).actions@,
    {
        if self.api10_background_task_count >= MAX_TASK_COUNT {
            return false;
        }
        if self.app_task_count(task.uid) >= MAX_TASK_COUNT_EACH_APP {
            return false;
        }
        self.push_task(task);
        true
    }

    /// Appends a fresh background job and counts it.
    fn push_task(&mut self, task: Task)
        requires
            old(self).can_place(task),
            task.conf.version == Version::API10 ==> old(self).api10_background_task_count < MAX_TASK_COUNT,
        ensures
            final(self).placed(old(self), task),
    {
        let ghost before = self.tasks@;
        let v10 = task.conf.version == Version::API10;
        self.tasks.push(task);
        self.total_task_count = self.total_task_count + 1;
        if v10 {
            self.api10_background_task_count = self.api10_background_task_count + 1;
        }
        proof {
            let after = self.tasks@;
            assert(after.drop_last() =~= before);
            lemma_count_push(before, task, live());
            lemma_count_push(before, task, is_v10());
            assert forall|u: u64| #[trigger] running_count(after, u) <= MAX_RUNNING_TASK_COUNT_EACH_APP by {
                lemma_count_push(before, task, running_v10_of(u));
                assert(running_count(before, u) <= MAX_RUNNING_TASK_COUNT_EACH_APP);
            }
            assert forall|i: int, j: int|
                0 <= i < after.len() && 0 <= j < after.len() && i != j implies after[i].task_id != after[j].task_id by {
                if i < before.len() {
                    assert(after[i] == before[i]);
                }
                if j < before.len() {
                    assert(after[j] == before[j]);
                }
            }
        }
    }

    /// The start gate on the background job at position `i`.
    fn start_in_map(&mut self, i: usize, online: bool, now: u64)
        requires
            old(self).wf(),
            i < old(self).tasks@.len(),
            !is_running(old(self).tasks@[i as int].state),
            !is_terminal(old(self).tasks@[i as int].state),
        ensures
            final(self).wf(),
            final(self).same_settings(old(self)),
            final(self).next_task_id == old(self).next_task_id,
            final(self).global_front_task == old(self).global_front_task,
            final(self).displaced_front_task == old(self).displaced_front_task,
            final(self).total_task_count == old(self).total_task_count,
            final(self).api10_background_task_count == old(self).api10_background_task_count,
            ({
                let t = old(self).tasks@[i as int];
                let rc = running_count(old(self).tasks@, t.uid);
                &&& final(self).tasks@ == old(self).tasks@.update(i as int, started(t, rc, online, now))
                &&& final(self).actions@ == old(self).actions@ + run_action(start_runs(t, rc, online), t)
            }),
    {
        let uid = self.tasks[i].uid;
        let task_id = self.tasks[i].task_id;
        let running = self.get_running_background_task_count(uid);
        let ghost s = self.tasks@;
        let run = start_inner(&mut self.tasks[i], running, online, now);
        if run {
            self.actions.push(Action::Run { uid, task_id });
        }
        proof {
            let x = self.tasks@[i as int];
            assert(self.tasks@ =~= s.update(i as int, x));
            lemma_tasks_update(s, i as int, x);
            assert forall|u: u64| #[trigger] running_count(self.tasks@, u) <= MAX_RUNNING_TASK_COUNT_EACH_APP by {
                assert(running_count(s, u) <= MAX_RUNNING_TASK_COUNT_EACH_APP);
            }
            assert(forall|k: int| 0 <= k < self.tasks@.len() && k != i ==> self.tasks@[k] == s[k]);
            if run {
                assert(self.actions@ =~= old(self).actions@ + run_action(true, s[i as int]));
            } else {
                assert(self.actions@ =~= old(self).actions@ + run_action(false, s[i as int]));
            }
        }
    }

    /// The start gate on the foreground job.
    fn start_in_slot(&mut self, online: bool, now: u64)
        requires
            old(self).wf(),
            old(self).global_front_task is Some,
        ensures
            final(self).wf(),
            final(self).same_settings(old(self)),
            final(self).next_task_id == old(self).next_task_id,
            final(self).tasks@ == old(self).tasks@,
            final(self).displaced_front_task == old(self).displaced_front_task,
            final(self).total_task_count == old(self).total_task_count,
            final(self).api10_background_task_count == old(self).api10_background_task_count,
            ({
                let t = old(self).global_front_task->0;
                let rc = running_count(old(self).tasks@, t.uid);
                &&& final(self).global_front_task == Some(started(t, rc, online, now))
                &&& final(self).actions@ == old(self).actions@ + run_action(start_runs(t, rc, online), t)
            }),
    {
        let slot = self.global_front_task.take();
        let mut t = slot.unwrap();
        let running = self.get_running_background_task_count(t.uid);
        let uid = t.uid;
        let task_id = t.task_id;
        let ghost t0 = t;
        let run = start_inner(&mut t, running, online, now);
        self.global_front_task = Some(t);
        if run {
            self.actions.push(Action::Run { uid, task_id });
            proof {
                assert(self.actions@ =~= old(self).actions@ + run_action(true, t0));
            }
        } else {
            proof {
                assert(self.actions@ =~= old(self).actions@ + run_action(false, t0));
            }
        }
    }

    /// Locates the job that `uid` sees as `task_id`: `Some(None)` for the
    /// foreground slot, `Some(Some(i))` for background position `i`.
    fn locate(&self, uid: u64, task_id: u32) -> (r: Option<Option<usize>>)
        requires
            self.wf(),
        ensures
            r is None <==> self.lookup(uid, task_id) is None,
            r == Some(None::<usize>) <==> self.in_slot(task_id),
            r matches Some(Some(i)) ==> !self.in_slot(task_id) && has_task(self.tasks@, uid, task_id)
                && i == index_of(self.tasks@, uid, task_id) && i < self.tasks@.len(),
    {
        match &self.global_front_task {
            Some(f) => {
                if f.task_id == task_id {
                    return Some(None);
                }
            },
            None => {},
        }
        match self.find_task(uid, task_id) {
            Some(i) => Some(Some(i)),
            None => None,
        }
    }

    /// Starts a job that has not run yet. Returns TaskNotFound when `uid`
    /// sees no such job and TaskStateErr when it is not INITIALIZED;
    /// otherwise the job goes through the start gate, with the network
    /// `online` or not.
    pub fn start(&mut self, uid: u64, task_id: u32, online: bool, now: u64) -> (r: ErrorCode)
        requires
            old(self).wf(),
        ensures
            final(self).wf(),
            r == match old(self).lookup(uid, task_id) {
                None => ErrorCode::TaskNotFound,
                Some(t) => if t.state != State::INITIALIZED {
                    ErrorCode::TaskStateErr
                } else {
                    ErrorCode::ErrOk
                },
            },
            r != ErrorCode::ErrOk ==> final(self).same_registry(old(self)) && final(self).actions@
                == old(self).actions@,
            r == ErrorCode::ErrOk ==> ({
                let t = old(self).lookup(uid, task_id)->0;
                let rc = running_count(old(self).tasks@, t.uid);
                &&& final(self).task_replaced(old(self), uid, task_id, started(t, rc, online, now))
                &&& final(self).actions@ == old(self).actions@ + run_action(start_runs(t, rc, online), t)
            }),
    {
        match self.locate(uid, task_id) {
            None => ErrorCode::TaskNotFound,
            Some(None) => {
                let st = match &self.global_front_task {
                    Some(f) => f.state,
                    None => State::INITIALIZED,
                };
                if st != State::INITIALIZED {
                    return ErrorCode::TaskStateErr;
                }
                self.start_in_slot(online, now);
                ErrorCode::ErrOk
            },
            Some(Some(i)) => {
                if self.tasks[i].state != State::INITIALIZED {
                    return ErrorCode::TaskStateErr;
                }
                self.start_in_map(i, online, now);
                ErrorCode::ErrOk
            },
        }
    }

    /// `set_status` on the background job at position `i`, with a target
    /// that does not run.
    fn set_status_in_map(&mut self, i: usize, state: State, reason: Reason, now: u64) -> (r: bool)
        requires
            old(self).wf(),
            i < old(self).tasks@.len(),
            !is_running(state),
        ensures
            final(self).wf(),
            r == transition_allowed(old(self).tasks@[i as int].state, state),
            final(self).tasks@ == old(self).tasks@.update(
                i as int,
                status_set(old(self).tasks@[i as int], state, reason, now),
            ),
            !r ==> final(self).tasks@ == old(self).tasks@,
            final(self).same_settings(old(self)),
            final(self).next_task_id == old(self).next_task_id,
            final(self).global_front_task == old(self).global_front_task,
            final(self).displaced_front_task == old(self).displaced_front_task,
            final(self).total_task_count == old(self).total_task_count,
            final(self).api10_background_task_count == old(self).api10_background_task_count,
            final(self).actions@ == old(self).actions@,
    {
        let ghost s = self.tasks@;
        let r = self.tasks[i].set_status(state, reason, now);
        proof {
            let x = self.tasks@[i as int];
            assert(self.tasks@ =~= s.update(i as int, x));
            lemma_tasks_update(s, i as int, x);
            assert forall|u: u64| #[trigger] running_count(self.tasks@, u) <= MAX_RUNNING_TASK_COUNT_EACH_APP by {
                assert(running_count(s, u) <= MAX_RUNNING_TASK_COUNT_EACH_APP);
            }
            assert(forall|k: int| 0 <= k < self.tasks@.len() && k != i ==> self.tasks@[k] == s[k]);
            if !r {
                assert(self.tasks@ =~= s);
            }
        }
        r
    }

    /// Pauses a background job. Returns TaskNotFound when `uid` sees no such
    /// job, TaskModeErr for a foreground job, TaskStateErr when the job is
    /// not running, retrying or waiting.
    pub fn pause(&mut self, uid: u64, task_id: u32, now: u64) -> (r: ErrorCode)
        requires
            old(self).wf(),
        ensures
            final(self).wf(),
            r == match old(self).lookup(uid, task_id) {
                None => ErrorCode::TaskNotFound,
                Some(t) => if t.conf.mode == Mode::FRONTEND {
                    ErrorCode::TaskModeErr
                } else if !transition_allowed(t.state, State::PAUSED) {
                    ErrorCode::TaskStateErr
                } else {
                    ErrorCode::ErrOk
                },
            },
            r != ErrorCode::ErrOk ==> final(self).same_registry(old(self)),
            r == ErrorCode::ErrOk ==> final(self).task_replaced(
                old(self),
                uid,
                task_id,
                status_set(old(self).lookup(uid, task_id)->0, State::PAUSED, Reason::UserOperation, now),
            ),
            final(self).actions@ == old(self).actions@,
    {
        match self.locate(uid, task_id) {
            None => ErrorCode::TaskNotFound,
            Some(None) => ErrorCode::TaskModeErr,
            Some(Some(i)) => {
                if self.tasks[i].conf.mode == Mode::FRONTEND {
                    return ErrorCode::TaskModeErr;
                }
                if !self.set_status_in_map(i, State::PAUSED, Reason::UserOperation, now) {
                    return ErrorCode::TaskStateErr;
                }
                ErrorCode::ErrOk
            },
        }
    }

    /// Resumes a paused background job through the start gate. Returns
    /// TaskNotFound when `uid` sees no such job, TaskModeErr for a foreground
    /// job, TaskStateErr when the job is not PAUSED.
    pub fn resume(&mut self, uid: u64, task_id: u32, online: bool, now: u64) -> (r: ErrorCode)
        requires
            old(self).wf(),
        ensures
            final(self).wf(),
            r == match old(self).lookup(uid, task_id) {
                None => ErrorCode::TaskNotFound,
                Some(t) => if t.conf.mode == Mode::FRONTEND {
                    ErrorCode::TaskModeErr
                } else if t.state != State::PAUSED {
                    ErrorCode::TaskStateErr
                } else {
                    ErrorCode::ErrOk
                },
            },
            r != ErrorCode::ErrOk ==> final(self).same_registry(old(self)) && final(self).actions@
                == old(self).actions@,
            r == ErrorCode::ErrOk ==> ({
                let t = old(self).lookup(uid, task_id)->0;
                let rc = running_count(old(self).tasks@, t.uid);
                &&& final(self).task_replaced(old(self), uid, task_id, started(t, rc, online, now))
                &&& final(self).actions@ == old(self).actions@ + run_action(start_runs(t, rc, online), t)
            }),
    {
        match self.locate(uid, task_id) {
            None => ErrorCode::TaskNotFound,
            Some(None) => ErrorCode::TaskModeErr,
            Some(Some(i)) => {
                if self.tasks[i].conf.mode == Mode::FRONTEND {
                    return ErrorCode::TaskModeErr;
                }
                if self.tasks[i].state != State::PAUSED {
                    return ErrorCode::TaskStateErr;
                }
                self.start_in_map(i, online, now);
                ErrorCode::ErrOk
            },
        }
    }

    /// Status reported by a job's execution: it has to wait, or (a
    /// background job) it paused itself. Returns TaskNotFound when `uid`
    /// sees no such job, TaskStateErr when `state` is not WAITING, or PAUSED
    /// for a background job, or when the job refuses the move.
    pub fn set_task_status(&mut self, uid: u64, task_id: u32, state: State, reason: Reason, now: u64) -> (r: ErrorCode)
        requires
            old(self).wf(),
        ensures
            final(self).wf(),
            r == if old(self).lookup(uid, task_id) is None {
                ErrorCode::TaskNotFound
            } else if !(state == State::WAITING || (state == State::PAUSED && !old(self).in_slot(task_id)))
                || !transition_allowed(old(self).lookup(uid, task_id)->0.state, state) {
                ErrorCode::TaskStateErr
            } else {
                ErrorCode::ErrOk
            },
            r != ErrorCode::ErrOk ==> final(self).same_registry(old(self)),
            r == ErrorCode::ErrOk ==> final(self).task_replaced(
                old(self),
                uid,
                task_id,
                status_set(old(self).lookup(uid, task_id)->0, state, reason, now),
            ),
            final(self).actions@ == old(self).actions@,
    {
        match self.locate(uid, task_id) {
            Some(Some(i)) => {
                if !(state == State::WAITING || state == State::PAUSED) {
                    return ErrorCode::TaskStateErr;
                }
                if !self.set_status_in_map(i, state, reason, now) {
                    return ErrorCode::TaskStateErr;
                }
                ErrorCode::ErrOk
            },
            Some(None) => {
                if state != State::WAITING {
                    return ErrorCode::TaskStateErr;
                }
                let mut f = self.global_front_task.take().unwrap();
                let ok = f.set_status(state, reason, now);
                self.global_front_task = Some(f);
                if !ok {
                    return ErrorCode::TaskStateErr;
                }
                ErrorCode::ErrOk
            },
            None => ErrorCode::TaskNotFound,
        }
    }

    /// Offers every waiting job of `uid` to the start gate again, in order.
    fn process_app_waitting_task(&mut self, uid: u64, online: bool, now: u64)
        requires
            old(self).wf(),
        ensures
            final(self).wf(),
            final(self).tasks@ == gate_from(old(self).tasks@, uid, 0, online, now),
            final(self).actions@ == old(self).actions@ + gate_runs(old(self).tasks@, uid, 0, online, now),
            final(self).same_settings(old(self)),
            final(self).next_task_id == old(self).next_task_id,
            final(self).global_front_task == old(self).global_front_task,
            final(self).displaced_front_task == old(self).displaced_front_task,
            final(self).total_task_count == old(self).total_task_count,
            final(self).api10_background_task_count == old(self).api10_background_task_count,
    {
        let ghost s0 = self.tasks@;
        let ghost a0 = self.actions@;
        let mut i: usize = 0;
        while i < self.tasks.len()
            invariant
                self.wf(),
                i <= self.tasks@.len(),
                gate_from(self.tasks@, uid, i as int, online, now) == gate_from(s0, uid, 0, online, now),
                self.actions@ + gate_runs(self.tasks@, uid, i as int, online, now) == a0 + gate_runs(
                    s0,
                    uid,
                    0,
                    online,
                    now,
                ),
                self.same_settings(old(self)),
                self.next_task_id == old(self).next_task_id,
                self.global_front_task == old(self).global_front_task,
                self.displaced_front_task == old(self).displaced_front_task,
                self.total_task_count == old(self).total_task_count,
                self.api10_background_task_count == old(self).api10_background_task_count,
                a0 == old(self).actions@,
                s0 == old(self).tasks@,
            decreases self.tasks@.len() - i,
        {
            if self.tasks[i].uid == uid && self.tasks[i].state == State::WAITING {
                let ghost s1 = self.tasks@;
                let ghost a1 = self.actions@;
                self.start_in_map(i, online, now);
                proof {
                    let ra = run_action(start_runs(s1[i as int], running_count(s1, uid), online), s1[i as int]);
                    let g = gate_runs(self.tasks@, uid, i + 1, online, now);
                    assert(gate_runs(s1, uid, i as int, online, now) == ra + g);
                    assert(a1 + (ra + g) =~= (a1 + ra) + g);
                }
            }
            i = i + 1;
        }
        proof {
            assert(self.actions@ + seq![] =~= self.actions@);
        }
    }

    /// Retirement of the job that `uid` sees as `task_id`: see `retire_step`.
    fn remove_task_from_map(&mut self, uid: u64, task_id: u32, online: bool, now: u64)
        requires
            old(self).wf(),
        ensures
            final(self).wf(),
            retire_step(old(self).reg(), final(self).reg(), uid, task_id, online, now),
            final(self).actions@ == old(self).actions@ + retire_runs(old(self).reg(), uid, task_id, online, now),
            final(self).same_settings(old(self)),
            final(self).next_task_id == old(self).next_task_id,
            final(self).displaced_front_task == old(self).displaced_front_task,
    {
        proof {
            assert(old(self).actions@ + seq![] =~= old(self).actions@);
        }
        match self.locate(uid, task_id) {
            None => {},
            Some(None) => {
                let mut f = self.global_front_task.take().unwrap();
                if !state_is_terminal(f.state) {
                    self.global_front_task = Some(f);
                    return;
                }
                if f.conf.version == Version::API9 && f.state != State::REMOVED {
                    if !f.retired {
                        f.release();
                        self.total_task_count = self.total_task_count - 1;
                    } else {
                        proof {
                            assert(released(f) == f);
                        }
                    }
                    self.global_front_task = Some(f);
                    return;
                }
                if !f.retired {
                    self.total_task_count = self.total_task_count - 1;
                }
            },
            Some(Some(i)) => {
                let ghost s = self.tasks@;
                if !state_is_terminal(self.tasks[i].state) {
                    return;
                }
                if self.tasks[i].conf.version == Version::API9 && self.tasks[i].state != State::REMOVED {
                    if !self.tasks[i].retired {
                        proof {
                            lemma_count_remove(s, i as int, live());
                        }
                        self.tasks[i].release();
                        self.total_task_count = self.total_task_count - 1;
                        proof {
                            let x = self.tasks@[i as int];
                            assert(self.tasks@ =~= s.update(i as int, x));
                            lemma_tasks_update(s, i as int, x);
                            assert forall|u: u64| #[trigger] running_count(self.tasks@, u)
                                <= MAX_RUNNING_TASK_COUNT_EACH_APP by {
                                assert(running_count(s, u) <= MAX_RUNNING_TASK_COUNT_EACH_APP);
                            }
                            assert(forall|k: int| 0 <= k < self.tasks@.len() && k != i ==> self.tasks@[k] == s[k]);
                        }
                    } else {
                        proof {
                            assert(released(s[i as int]) == s[i as int]);
                            assert(s.update(i as int, s[i as int]) =~= s);
                        }
                    }
                    return;
                }
                let t = self.tasks.remove(i);
                proof {
                    let r = self.tasks@;
                    assert(r =~= s.remove(i as int));
                    lemma_count_remove(s, i as int, live());
                    lemma_count_remove(s, i as int, is_v10());
                    assert forall|u: u64| #[trigger] running_count(r, u) <= MAX_RUNNING_TASK_COUNT_EACH_APP by {
                        lemma_count_remove(s, i as int, running_v10_of(u));
                        assert(running_count(s, u) <= MAX_RUNNING_TASK_COUNT_EACH_APP);
                    }
                    assert forall|a: int, b: int|
                        0 <= a < r.len() && 0 <= b < r.len() && a != b implies r[a].task_id != r[b].task_id by {
                        let a2 = if a < i { a } else { a + 1 };
                        let b2 = if b < i { b } else { b + 1 };
                        assert(r[a] == s[a2]);
                        assert(r[b] == s[b2]);
                    }
                    assert forall|k: int| 0 <= k < r.len() implies (#[trigger] r[k]).task_id
                        < self.next_task_id && map_task_ok(r[k]) by {
                        let k2 = if k < i { k } else { k + 1 };
                        assert(r[k] == s[k2]);
                    }
                    if self.global_front_task is Some {
                        assert forall|k: int| 0 <= k < r.len() implies (#[trigger] r[k]).task_id
                            != self.global_front_task->0.task_id by {
                            let k2 = if k < i { k } else { k + 1 };
                            assert(r[k] == s[k2]);
                        }
                    }
                }
                if !t.retired {
                    self.total_task_count = self.total_task_count - 1;
                }
                if t.conf.version == Version::API10 {
                    self.api10_background_task_count = self.api10_background_task_count - 1;
                    self.process_app_waitting_task(t.uid, online, now);
                }
            },
        }
    }

    /// Arms the idle-unload monitor, once per manager, when no job is live.
    fn unload_sa(&mut self)
        ensures
            final(self).same_config(old(self)),
            final(self).reg() == old(self).reg(),
            final(self).tasks@ == old(self).tasks@,
            final(self).next_task_id == old(self).next_task_id,
            final(self).displaced_front_task == old(self).displaced_front_task,
            final(self).unload_monitor_armed == (old(self).unload_monitor_armed
                || old(self).total_task_count == 0),
            final(self).actions@ == old(self).actions@ + arm_action(
                old(self).unload_monitor_armed,
                old(self).total_task_count,
            ),
    {
        if self.total_task_count != 0 {
            proof {
                assert(self.actions@ =~= old(self).actions@ + seq![]);
            }
            return;
        }
        if !self.unload_monitor_armed {
            self.unload_monitor_armed = true;
            self.actions.push(Action::ArmUnloadMonitor);
            proof {
                assert(self.actions@ =~= old(self).actions@ + seq![Action::ArmUnloadMonitor]);
            }
        } else {
            proof {
                assert(self.actions@ =~= old(self).actions@ + seq![]);
            }
        }
    }

    /// Sets the status of the job that `uid` sees as `task_id`, to a state
    /// that does not run; with `force`, removal is imposed whatever the
    /// job's state.
    fn put_status(&mut self, uid: u64, task_id: u32, state: State, reason: Reason, force: bool, now: u64) -> (r: bool)
        requires
            old(self).wf(),
            old(self).lookup(uid, task_id) is Some,
            !is_running(state),
            force ==> state == State::REMOVED && reason == Reason::UserOperation,
        ensures
            final(self).wf(),
            r == (force || transition_allowed(old(self).lookup(uid, task_id)->0.state, state)),
            final(self).reg() == reg_with(
                old(self).reg(),
                uid,
                task_id,
                if force {
                    forced_removed(old(self).lookup(uid, task_id)->0)
                } else {
                    status_set(old(self).lookup(uid, task_id)->0, state, reason, now)
                },
            ),
            final(self).same_settings(old(self)),
            final(self).next_task_id == old(self).next_task_id,
            final(self).displaced_front_task == old(self).displaced_front_task,
            final(self).actions@ == old(self).actions@,
    {
        match self.locate(uid, task_id) {
            Some(Some(i)) => {
                let ghost s = self.tasks@;
                let r = if force {
                    self.tasks[i].state = State::REMOVED;
                    self.tasks[i].reason = Reason::UserOperation;
                    self.tasks[i].waiting_since = None;
                    true
                } else {
                    self.tasks[i].set_status(state, reason, now)
                };
                proof {
                    let x = self.tasks@[i as int];
                    assert(self.tasks@ =~= s.update(i as int, x));
                    lemma_tasks_update(s, i as int, x);
                    assert forall|u: u64| #[trigger] running_count(self.tasks@, u)
                        <= MAX_RUNNING_TASK_COUNT_EACH_APP by {
                        assert(running_count(s, u) <= MAX_RUNNING_TASK_COUNT_EACH_APP);
                    }
                    assert(forall|k: int| 0 <= k < self.tasks@.len() && k != i ==> self.tasks@[k] == s[k]);
                }
                r
            },
            _ => {
                let mut f = self.global_front_task.take().unwrap();
                let r = if force {
                    f.state = State::REMOVED;
                    f.reason = Reason::UserOperation;
                    f.waiting_since = None;
                    true
                } else {
                    f.set_status(state, reason, now)
                };
                self.global_front_task = Some(f);
                r
            },
        }
    }

    /// The completion path: the execution of the job that `uid` sees as
    /// `task_id` ended in `state` for `reason`. A terminal `state` is set
    /// if the job accepts it; a job in a terminal state then retires (see
    /// `retire_step`), and the idle-unload monitor is armed if no job is
    /// live any more.
    pub fn after_task_processed(
        &mut self,
        uid: u64,
        task_id: u32,
        state: State,
        reason: Reason,
        online: bool,
        now: u64,
    )
        requires
            old(self).wf(),
        ensures
            final(self).wf(),
            retire_step(
                after_status(old(self).reg(), uid, task_id, state, reason, now),
                final(self).reg(),
                uid,
                task_id,
                online,
                now,
            ),
            final(self).actions@ == old(self).actions@ + retire_runs(
                after_status(old(self).reg(), uid, task_id, state, reason, now),
                uid,
                task_id,
                online,
                now,
            ) + arm_action(old(self).unload_monitor_armed, final(self).total_task_count),
            final(self).same_config(old(self)),
            final(self).next_task_id == old(self).next_task_id,
            final(self).displaced_front_task == old(self).displaced_front_task,
            final(self).unload_monitor_armed == (old(self).unload_monitor_armed
                || final(self).total_task_count == 0),
    {
        if state_is_terminal(state) {
            match self.locate(uid, task_id) {
                Some(_) => {
                    self.put_status(uid, task_id, state, reason, false, now);
                },
                None => {},
            }
        }
        self.retire_and_check(uid, task_id, online, now);
    }

    /// Retirement followed by the idle check.
    fn retire_and_check(&mut self, uid: u64, task_id: u32, online: bool, now: u64)
        requires
            old(self).wf(),
        ensures
            final(self).wf(),
            retire_step(old(self).reg(), final(self).reg(), uid, task_id, online, now),
            final(self).actions@ == old(self).actions@ + retire_runs(old(self).reg(), uid, task_id, online, now)
                + arm_action(old(self).unload_monitor_armed, final(self).total_task_count),
            final(self).same_config(old(self)),
            final(self).next_task_id == old(self).next_task_id,
            final(self).displaced_front_task == old(self).displaced_front_task,
            final(self).unload_monitor_armed == (old(self).unload_monitor_armed
                || final(self).total_task_count == 0),
    {
        self.remove_task_from_map(uid, task_id, online, now);
        self.unload_sa();
    }

    /// Stops a job and retires it. Returns TaskNotFound when `uid` sees no
    /// such job and TaskStateErr when it has already ended.
    pub fn stop(&mut self, uid: u64, task_id: u32, online: bool, now: u64) -> (r: ErrorCode)
        requires
            old(self).wf(),
        ensures
            final(self).wf(),
            r == match old(self).lookup(uid, task_id) {
                None => ErrorCode::TaskNotFound,
                Some(t) => if !transition_allowed(t.state, State::STOPPED) {
                    ErrorCode::TaskStateErr
                } else {
                    ErrorCode::ErrOk
                },
            },
            r != ErrorCode::ErrOk ==> final(self).same_registry(old(self)) && final(self).actions@
                == old(self).actions@,
            r == ErrorCode::ErrOk ==> ({
                let a = reg_with(
                    old(self).reg(),
                    uid,
                    task_id,
                    status_set(old(self).lookup(uid, task_id)->0, State::STOPPED, Reason::UserOperation, now),
                );
                &&& retire_step(a, final(self).reg(), uid, task_id, online, now)
                &&& final(self).actions@ == old(self).actions@ + retire_runs(a, uid, task_id, online, now)
                    + arm_action(old(self).unload_monitor_armed, final(self).total_task_count)
                &&& final(self).same_config(old(self))
                &&& final(self).next_task_id == old(self).next_task_id
                &&& final(self).displaced_front_task == old(self).displaced_front_task
                &&& final(self).unload_monitor_armed == (old(self).unload_monitor_armed
                    || final(self).total_task_count == 0)
            }),
    {
        match self.locate(uid, task_id) {
            None => ErrorCode::TaskNotFound,
            Some(_) => {
                if !self.put_status(uid, task_id, State::STOPPED, Reason::UserOperation, false, now) {
                    proof {
                        assert(self.tasks@ =~= old(self).tasks@);
                    }
                    return ErrorCode::TaskStateErr;
                }
                self.retire_and_check(uid, task_id, online, now);
                ErrorCode::ErrOk
            },
        }
    }

    /// Removes a job, whatever its state, and retires it. Returns
    /// TaskNotFound when `uid` sees no such job.
    pub fn remove(&mut self, uid: u64, task_id: u32, online: bool, now: u64) -> (r: ErrorCode)
        requires
            old(self).wf(),
        ensures
            final(self).wf(),
            r == if old(self).lookup(uid, task_id) is None {
                ErrorCode::TaskNotFound
            } else {
                ErrorCode::ErrOk
            },
            r != ErrorCode::ErrOk ==> final(self).same_registry(old(self)) && final(self).actions@
                == old(self).actions@,
            r == ErrorCode::ErrOk ==> ({
                let a = reg_with(old(self).reg(), uid, task_id, forced_removed(old(self).lookup(uid, task_id)->0));
                &&& retire_step(a, final(self).reg(), uid, task_id, online, now)
                &&& final(self).actions@ == old(self).actions@ + retire_runs(a, uid, task_id, online, now)
                    + arm_action(old(self).unload_monitor_armed, final(self).total_task_count)
                &&& final(self).same_config(old(self))
                &&& final(self).next_task_id == old(self).next_task_id
                &&& final(self).displaced_front_task == old(self).displaced_front_task
                &&& final(self).unload_monitor_armed == (old(self).unload_monitor_armed
                    || final(self).total_task_count == 0)
            }),
    {
        match self.locate(uid, task_id) {
            None => ErrorCode::TaskNotFound,
            Some(_) => {
                self.put_status(uid, task_id, State::REMOVED, Reason::UserOperation, true, now);
                self.retire_and_check(uid, task_id, online, now);
                ErrorCode::ErrOk
            },
        }
    }

    /// The projection of the job that `uid` sees as `task_id`, if any: a
    /// registered job, else the foreground job last displaced from the slot,
    /// which stays queryable in its stopped state.
    pub fn show(&self, uid: u64, task_id: u32) -> (r: Option<TaskInfo>)
        requires
            self.wf(),
        ensures
            r == match self.visible(uid, task_id) {
                Some(t) => Some(info_of(t)),
                None => None,
            },
    {
        match self.locate(uid, task_id) {
            None => match &self.displaced_front_task {
                Some(d) => {
                    if d.task_id == task_id {
                        Some(d.show())
                    } else {
                        None
                    }
                },
                None => None,
            },
            Some(None) => match &self.global_front_task {
                Some(f) => Some(f.show()),
                None => None,
            },
            Some(Some(i)) => Some(self.tasks[i].show()),
        }
    }

    /// Records the mime type that the execution of the job that `uid` sees
    /// as `task_id` found. Returns TaskNotFound when there is no such job.
    pub fn set_mime_type(&mut self, uid: u64, task_id: u32, mime_type: String) -> (r: ErrorCode)
        requires
            old(self).wf(),
        ensures
            final(self).wf(),
            r == if old(self).lookup(uid, task_id) is None {
                ErrorCode::TaskNotFound
            } else {
                ErrorCode::ErrOk
            },
            r != ErrorCode::ErrOk ==> final(self).same_registry(old(self)),
            r == ErrorCode::ErrOk ==> final(self).task_replaced(
                old(self),
                uid,
                task_id,
                Task { mime_type, ..old(self).lookup(uid, task_id)->0 },
            ),
            final(self).actions@ == old(self).actions@,
    {
        match self.locate(uid, task_id) {
            None => ErrorCode::TaskNotFound,
            Some(None) => {
                let mut f = self.global_front_task.take().unwrap();
                f.mime_type = mime_type;
                self.global_front_task = Some(f);
                ErrorCode::ErrOk
            },
            Some(Some(i)) => {
                let ghost s = self.tasks@;
                self.tasks[i].mime_type = mime_type;
                proof {
                    let x = self.tasks@[i as int];
                    assert(self.tasks@ =~= s.update(i as int, x));
                    lemma_tasks_update(s, i as int, x);
                    assert forall|u: u64| #[trigger] running_count(self.tasks@, u)
                        <= MAX_RUNNING_TASK_COUNT_EACH_APP by {
                        assert(running_count(s, u) <= MAX_RUNNING_TASK_COUNT_EACH_APP);
                    }
                    assert(forall|k: int| 0 <= k < self.tasks@.len() && k != i ==> self.tasks@[k] == s[k]);
                }
                ErrorCode::ErrOk
            },
        }
    }

    /// The mime type of the job that a query by `uid` for `task_id` finds
    /// (see `visible`); empty when there is no such job.
    pub fn query_mime_type(&self, uid: u64, task_id: u32) -> (r: String)
        requires
            self.wf(),
        ensures
            r@ == match self.visible(uid, task_id) {
                Some(t) => t.mime_type@,
                None => Seq::<char>::empty(),
            },
    {
        match self.show(uid, task_id) {
            Some(info) => info.mime_type,
            None => String::new(),
        }
    }

    /// The sweep over the background jobs: each overdue job is stopped
    /// (`sweep_mark`), then the overdue jobs retire in order. Returns whether
    /// any job was overdue.
    fn sweep_background(&mut self, online: bool, now: u64) -> (swept: bool)
        requires
            old(self).wf(),
        ensures
            final(self).wf(),
            forall|j: int| 0 <= j < final(self).tasks@.len() ==> !overdue(#[trigger] final(self).tasks@[j], now),
            forall|j: int|
                0 <= j < old(self).tasks@.len() && !overdue(#[trigger] old(self).tasks@[j], now) ==> has_task(
                    final(self).tasks@,
                    old(self).tasks@[j].uid,
                    old(self).tasks@[j].task_id,
                ),
            forall|j: int|
                0 <= j < old(self).tasks@.len() && overdue(#[trigger] old(self).tasks@[j], now)
                    && old(self).tasks@[j].conf.version == Version::API10 ==> !has_task(
                    final(self).tasks@,
                    old(self).tasks@[j].uid,
                    old(self).tasks@[j].task_id,
                ),
            ({
                let marked = sweep_marked(old(self).reg(), now);
                let keys = overdue_keys(old(self).tasks@, now);
                &&& final(self).reg() == retire_all(marked, keys, 0, online, now)
                &&& final(self).actions@ == old(self).actions@ + retire_all_runs(marked, keys, 0, online, now)
                &&& swept == (keys.len() > 0)
            }),
            final(self).global_front_task == old(self).global_front_task,
            final(self).same_settings(old(self)),
            final(self).next_task_id == old(self).next_task_id,
            final(self).displaced_front_task == old(self).displaced_front_task,
    {
        let ghost a0 = self.actions@;
        let mut collected: Vec<(u64, u32)> = Vec::new();
        let mut i: usize = 0;
        while i < self.tasks.len()
            invariant
                self.wf(),
                i <= self.tasks@.len(),
                self.global_front_task == old(self).global_front_task,
                self.same_settings(old(self)),
                self.next_task_id == old(self).next_task_id,
                self.displaced_front_task == old(self).displaced_front_task,
                self.actions@ == a0,
                a0 == old(self).actions@,
                forall|j: int|
                    0 <= j < i && overdue(#[trigger] self.tasks@[j], now) ==> age_overdue(self.tasks@[j], now)
                        && is_terminal(self.tasks@[j].state) && pending(collected@, 0, self.tasks@[j]),
                same_jobs(old(self).tasks@, self.tasks@),
                forall|j: int| i <= j < self.tasks@.len() ==> #[trigger] self.tasks@[j] == old(self).tasks@[j],
                forall|j: int| 0 <= j < i ==> #[trigger] self.tasks@[j] == sweep_mark(old(self).tasks@[j], now),
                collected@ == overdue_keys(old(self).tasks@.subrange(0, i as int), now),
                self.total_task_count == old(self).total_task_count,
                self.api10_background_task_count == old(self).api10_background_task_count,
                forall|j: int|
                    0 <= j < i && overdue(#[trigger] old(self).tasks@[j], now) ==> pending(
                        collected@,
                        0,
                        old(self).tasks@[j],
                    ),
                forall|j: int|
                    0 <= j < self.tasks@.len() && pending(collected@, 0, #[trigger] self.tasks@[j]) ==> j < i
                        && is_terminal(self.tasks@[j].state),
                forall|m: int|
                    0 <= m < collected@.len() ==> has_task(self.tasks@, #[trigger] collected@[m].0, collected@[m].1),
            decreases self.tasks@.len() - i,
        {
            let uid = self.tasks[i].uid;
            let task_id = self.tasks[i].task_id;
            let ghost s1 = self.tasks@;
            let ghost c1 = collected@;
            let old_enough = self.tasks[i].conf.version == Version::API10 && now > self.tasks[i].ctime
                && now - self.tasks[i].ctime > SECONDS_IN_ONE_MONTH;
            let waited_long = self.tasks[i].state == State::WAITING && match self.tasks[i].waiting_since {
                Some(w) => now > w && now - w > SECONDS_IN_ONE_DAY,
                None => false,
            };
            if old_enough {
                self.set_status_in_map(i, State::STOPPED, Reason::TaskSurvivalOneMonth, now);
                collected.push((uid, task_id));
            } else if waited_long {
                self.set_status_in_map(i, State::STOPPED, Reason::WaittingNetWorkOneday, now);
                collected.push((uid, task_id));
            }
            proof {
                assert(forall|k: int| 0 <= k < self.tasks@.len() && k != i ==> self.tasks@[k] == s1[k]);
                let s0 = old(self).tasks@;
                assert(s0.subrange(0, i + 1).drop_last() =~= s0.subrange(0, i as int));
                assert(s1[i as int] == s0[i as int]);
                if old_enough || waited_long {
                    assert(collected@ =~= overdue_keys(s0.subrange(0, i + 1), now));
                } else {
                    assert(collected@ =~= overdue_keys(s0.subrange(0, i + 1), now));
                }
                assert(self.tasks@[i as int] == sweep_mark(s0[i as int], now));
                assert(has_task(self.tasks@, uid, task_id)) by {
                    assert(self.tasks@[i as int].uid == uid && self.tasks@[i as int].task_id == task_id);
                }
                assert forall|m: int| 0 <= m < collected@.len() implies has_task(self.tasks@, #[trigger] collected@[m].0, collected@[m].1) by {
                    if m < collected@.len() - 1 || !(old_enough || waited_long) {
                        let k = choose|k: int| 0 <= k < s1.len() && s1[k].uid == collected@[m].0 && s1[k].task_id == collected@[m].1;
                        assert(self.tasks@[k].uid == s1[k].uid && self.tasks@[k].task_id == s1[k].task_id);
                    }
                }
                assert forall|j: int|
                    0 <= j < i + 1 && overdue(#[trigger] old(self).tasks@[j], now) implies pending(
                        collected@,
                        0,
                        old(self).tasks@[j],
                    ) by {
                    if j == i {
                        assert(s1[j] == old(self).tasks@[j]);
                        assert(old_enough || waited_long);
                        assert(collected@[collected@.len() - 1] == (uid, task_id));
                    } else {
                        let p = (old(self).tasks@[j].uid, old(self).tasks@[j].task_id);
                        let m = choose|m: int| 0 <= m < c1.len() && c1[m] == p;
                        assert(collected@[m] == p);
                    }
                }
                assert forall|j: int|
                    0 <= j < self.tasks@.len() && pending(collected@, 0, #[trigger] self.tasks@[j]) implies j < i + 1
                        && is_terminal(self.tasks@[j].state) by {
                    let m = choose|m: int| 0 <= m < collected@.len() && collected@[m] == (self.tasks@[j].uid, self.tasks@[j].task_id);
                    if m < c1.len() {
                        assert(c1[m] == collected@[m]);
                        assert(s1[j].uid == self.tasks@[j].uid && s1[j].task_id == self.tasks@[j].task_id);
                        assert(pending(c1, 0, s1[j]));
                    } else {
                        assert(self.tasks@[j].task_id == s1[i as int].task_id);
                        assert(j == i);
                    }
                }
                assert forall|j: int|
                    0 <= j < i + 1 && overdue(#[trigger] self.tasks@[j], now) implies age_overdue(self.tasks@[j], now)
                        && is_terminal(self.tasks@[j].state) && pending(collected@, 0, self.tasks@[j]) by {
                    if j == i {
                        assert(collected@[collected@.len() - 1] == (uid, task_id));
                    } else {
                        let p = (self.tasks@[j].uid, self.tasks@[j].task_id);
                        let m = choose|m: int| 0 <= m < c1.len() && c1[m] == p;
                        assert(collected@[m] == p);
                    }
                }
            }
            i = i + 1;
        }
        proof {
            assert forall|j: int| 0 <= j < self.tasks@.len() && overdue(#[trigger] self.tasks@[j], now) implies age_overdue(
                self.tasks@[j],
                now,
            ) && is_terminal(self.tasks@[j].state) && pending(collected@, 0, self.tasks@[j]) by {}
            if self.global_front_task is Some {
                assert forall|m: int| 0 <= m < collected@.len() implies (#[trigger] collected@[m]).1
                    != self.global_front_task->0.task_id by {
                    assert(has_task(self.tasks@, collected@[m].0, collected@[m].1));
                }
            }
            assert forall|j: int| 0 <= j < self.tasks@.len() implies from_start(old(self).tasks@, #[trigger] self.tasks@[j]) by {
                assert(old(self).tasks@[j].uid == self.tasks@[j].uid);
            }
            assert(old(self).tasks@.subrange(0, old(self).tasks@.len() as int) =~= old(self).tasks@);
            assert(self.reg() =~= sweep_marked(old(self).reg(), now));
            assert(self.actions@ + retire_all_runs(self.reg(), collected@, 0, online, now) =~= a0 + retire_all_runs(
                sweep_marked(old(self).reg(), now),
                collected@,
                0,
                online,
                now,
            ));
        }
        proof {
            lemma_overdue_keys(old(self).tasks@, now);
            assert forall|j: int|
                0 <= j < old(self).tasks@.len() && !overdue(#[trigger] old(self).tasks@[j], now) implies has_task(
                self.tasks@,
                old(self).tasks@[j].uid,
                old(self).tasks@[j].task_id,
            ) by {
                assert(self.tasks@[j].uid == old(self).tasks@[j].uid);
            }
        }
        let ghost r1 = self.reg();
        let mut k: usize = 0;
        while k < collected.len()
            invariant
                self.wf(),
                k <= collected@.len(),
                self.global_front_task == old(self).global_front_task,
                self.same_config(old(self)),
                self.next_task_id == old(self).next_task_id,
                self.displaced_front_task == old(self).displaced_front_task,
                a0 == old(self).actions@,
                self.unload_monitor_armed == old(self).unload_monitor_armed,
                r1 == sweep_marked(old(self).reg(), now),
                collected@ == overdue_keys(old(self).tasks@, now),
                retire_all(self.reg(), collected@, k as int, online, now) == retire_all(r1, collected@, 0, online, now),
                self.actions@ + retire_all_runs(self.reg(), collected@, k as int, online, now) == a0
                    + retire_all_runs(r1, collected@, 0, online, now),
                forall|j: int|
                    0 <= j < self.tasks@.len() && overdue(#[trigger] self.tasks@[j], now) ==> age_overdue(
                        self.tasks@[j],
                        now,
                    ) && is_terminal(self.tasks@[j].state) && pending(collected@, k as int, self.tasks@[j]),
                self.global_front_task matches Some(f) ==> forall|m: int|
                    0 <= m < collected@.len() ==> (#[trigger] collected@[m]).1 != f.task_id,
                ids_unique(old(self).tasks@),
                forall|j: int|
                    0 <= j < old(self).tasks@.len() && overdue(#[trigger] old(self).tasks@[j], now) ==> pending(
                        collected@,
                        0,
                        old(self).tasks@[j],
                    ),
                sweep_progress(old(self).tasks@, self.tasks@, collected@, k as int),
                forall|j: int|
                    0 <= j < old(self).tasks@.len() && !overdue(#[trigger] old(self).tasks@[j], now) ==> has_task(
                        self.tasks@,
                        old(self).tasks@[j].uid,
                        old(self).tasks@[j].task_id,
                    ),
            decreases collected@.len() - k,
        {
            let (uid, task_id) = collected[k];
            let ghost s1 = self.tasks@;
            let ghost a1 = self.actions@;
            let ghost t1 = self.total_task_count;
            let ghost v1 = self.api10_background_task_count;
            let ghost g1 = self.reg();
            self.remove_task_from_map(uid, task_id, online, now);
            proof {
                let s0 = old(self).tasks@;
                lemma_overdue_keys(s0, now);
                assert(ids_unique(g1.0));
                assert(collected@[k as int] == overdue_keys(s0, now)[k as int]);
                assert(overdue_key(s0, now, overdue_keys(s0, now)[k as int]));
                assert forall|j: int| 0 <= j < s0.len() && !overdue(#[trigger] s0[j], now) implies has_task(
                    self.tasks@,
                    s0[j].uid,
                    s0[j].task_id,
                ) by {
                    let j2 = choose|j2: int| 0 <= j2 < s0.len() && overdue(s0[j2], now) && (s0[j2].uid, s0[j2].task_id)
                        == overdue_keys(s0, now)[k as int];
                    assert(j2 != j);
                    lemma_retire_keeps(g1, self.reg(), uid, task_id, online, now, s0[j].uid, s0[j].task_id);
                }
                let ra = retire_runs(g1, uid, task_id, online, now);
                let rest = retire_all_runs(self.reg(), collected@, k + 1, online, now);
                assert(retire_all_runs(g1, collected@, k as int, online, now) == ra + rest);
                assert(a1 + (ra + rest) =~= (a1 + ra) + rest);
                lemma_sweep_step(
                    (s1, old(self).global_front_task, t1 as int, v1 as int),
                    self.reg(),
                    collected@,
                    k as int,
                    online,
                    now,
                );
                lemma_sweep_absent(
                    (s1, old(self).global_front_task, t1 as int, v1 as int),
                    self.reg(),
                    collected@,
                    k as int,
                    old(self).tasks@,
                    online,
                    now,
                );
            }
            k = k + 1;
        }
        proof {
            let s0 = old(self).tasks@;
            assert forall|j: int|
                0 <= j < s0.len() && overdue(#[trigger] s0[j], now) && s0[j].conf.version == Version::API10 implies !has_task(
                self.tasks@,
                s0[j].uid,
                s0[j].task_id,
            ) by {
                if has_task(self.tasks@, s0[j].uid, s0[j].task_id) {
                    let q = choose|q: int| 0 <= q < self.tasks@.len() && self.tasks@[q].uid == s0[j].uid && self.tasks@[q].task_id == s0[j].task_id;
                    let m = choose|m: int| 0 <= m < collected@.len() && collected@[m] == (s0[j].uid, s0[j].task_id);
                    assert(collected@[m] == (self.tasks@[q].uid, self.tasks@[q].task_id));
                    assert(self.tasks@[q].conf.version == Version::API9);
                    assert(from_start(s0, self.tasks@[q]));
                    let j1 = choose|j1: int| 0 <= j1 < s0.len() && s0[j1].uid == self.tasks@[q].uid && s0[j1].task_id == self.tasks@[q].task_id && s0[j1].conf == self.tasks@[q].conf;
                    assert(j1 == j);
                }
            }
        }
        proof {
            assert(self.actions@ + seq![] =~= self.actions@);
        }
        collected.len() > 0
    }

    /// The sweep over the foreground job: if it is overdue it is stopped
    /// (`sweep_mark`) and retires. Returns whether it was overdue.
    fn sweep_slot(&mut self, online: bool, now: u64) -> (swept: bool)
        requires
            old(self).wf(),
        ensures
            final(self).wf(),
            swept == slot_due(old(self).global_front_task, now),
            final(self).reg() == sweep_slot_reg(old(self).reg(), online, now),
            final(self).tasks@ == old(self).tasks@,
            final(self).actions@ == old(self).actions@,
            final(self).same_settings(old(self)),
            final(self).next_task_id == old(self).next_task_id,
            final(self).displaced_front_task == old(self).displaced_front_task,
    {
        let (age, wait) = match &self.global_front_task {
            Some(f) => (
                f.conf.version == Version::API10 && now > f.ctime && now - f.ctime > SECONDS_IN_ONE_MONTH,
                f.state == State::WAITING && match f.waiting_since {
                    Some(w) => now > w && now - w > SECONDS_IN_ONE_DAY,
                    None => false,
                },
            ),
            None => (false, false),
        };
        if !(age || wait) {
            return false;
        }
        let mut f = self.global_front_task.take().unwrap();
        let uid = f.uid;
        let task_id = f.task_id;
        if age {
            f.set_status(State::STOPPED, Reason::TaskSurvivalOneMonth, now);
        } else {
            f.set_status(State::STOPPED, Reason::WaittingNetWorkOneday, now);
        }
        self.global_front_task = Some(f);
        let ghost mid = self.reg();
        self.remove_task_from_map(uid, task_id, online, now);
        proof {
            assert(reg_in_slot(mid, task_id));
            assert(retire_runs(mid, uid, task_id, online, now) == Seq::<Action>::empty());
            assert(self.actions@ =~= old(self).actions@);
        }
        true
    }

    /// The periodic sweep at time `now`: stops every schema-V10 job older
    /// than a month and every job that has waited for the network longer
    /// than a day, the background jobs and the foreground job alike, then
    /// retires them; if any job was overdue, the idle check follows.
    /// Afterwards no registered background job is overdue, every one that
    /// was not is still registered, and every overdue schema-V10 job is gone.
    pub fn monitor_task(&mut self, online: bool, now: u64)
        requires
            old(self).wf(),
        ensures
            final(self).wf(),
            forall|j: int| 0 <= j < final(self).tasks@.len() ==> !overdue(#[trigger] final(self).tasks@[j], now),
            forall|j: int|
                0 <= j < old(self).tasks@.len() && !overdue(#[trigger] old(self).tasks@[j], now) ==> has_task(
                    final(self).tasks@,
                    old(self).tasks@[j].uid,
                    old(self).tasks@[j].task_id,
                ),
            forall|j: int|
                0 <= j < old(self).tasks@.len() && overdue(#[trigger] old(self).tasks@[j], now)
                    && old(self).tasks@[j].conf.version == Version::API10 ==> !has_task(
                    final(self).tasks@,
                    old(self).tasks@[j].uid,
                    old(self).tasks@[j].task_id,
                ),
            ({
                let marked = sweep_marked(old(self).reg(), now);
                let keys = overdue_keys(old(self).tasks@, now);
                let any = keys.len() > 0 || slot_due(old(self).global_front_task, now);
                &&& final(self).reg() == sweep_slot_reg(retire_all(marked, keys, 0, online, now), online, now)
                &&& final(self).actions@ == old(self).actions@ + retire_all_runs(marked, keys, 0, online, now)
                    + if any {
                    arm_action(old(self).unload_monitor_armed, final(self).total_task_count)
                } else {
                    seq![]
                }
                &&& final(self).unload_monitor_armed == (old(self).unload_monitor_armed || (any
                    && final(self).total_task_count == 0))
            }),
            final(self).same_config(old(self)),
            final(self).next_task_id == old(self).next_task_id,
            final(self).displaced_front_task == old(self).displaced_front_task,
    {
        let swept = self.sweep_background(online, now);
        let front_swept = self.sweep_slot(online, now);
        if swept || front_swept {
            self.unload_sa();
        } else {
            proof {
                assert(self.actions@ + seq![] =~= self.actions@);
            }
        }
    }

    /// The background jobs waiting when the network comes back, in order;
    /// each is offered to `resume_by_network` after a settling delay.
    pub fn network_waiting_tasks(&self) -> (r: Vec<(u64, u32)>)
        ensures
            r@ == waiting_keys(self.tasks@),
    {
        let mut r: Vec<(u64, u32)> = Vec::new();
        let mut i: usize = 0;
        while i < self.tasks.len()
            invariant
                i <= self.tasks@.len(),
                r@ == waiting_keys(self.tasks@.subrange(0, i as int)),
            decreases self.tasks@.len() - i,
        {
            proof {
                assert(self.tasks@.subrange(0, i + 1).drop_last() =~= self.tasks@.subrange(0, i as int));
            }
            if self.tasks[i].state == State::WAITING {
                r.push((self.tasks[i].uid, self.tasks[i].task_id));
                proof {
                    assert(r@ =~= waiting_keys(self.tasks@.subrange(0, i + 1)));
                }
            } else {
                proof {
                    assert(r@ =~= waiting_keys(self.tasks@.subrange(0, i + 1)));
                }
            }
            i = i + 1;
        }
        proof {
            assert(self.tasks@.subrange(0, i as int) =~= self.tasks@);
        }
        r
    }

    /// The network is back: `uid`'s background job `task_id`, if it still
    /// waits, goes through the start gate.
    pub fn resume_by_network(&mut self, uid: u64, task_id: u32, online: bool, now: u64)
        requires
            old(self).wf(),
        ensures
            final(self).wf(),
            final(self).same_settings(old(self)),
            final(self).next_task_id == old(self).next_task_id,
            final(self).global_front_task == old(self).global_front_task,
            final(self).displaced_front_task == old(self).displaced_front_task,
            final(self).total_task_count == old(self).total_task_count,
            final(self).api10_background_task_count == old(self).api10_background_task_count,
            ({
                let k = index_of(old(self).tasks@, uid, task_id);
                let t = old(self).tasks@[k];
                let rc = running_count(old(self).tasks@, t.uid);
                if has_task(old(self).tasks@, uid, task_id) && t.state == State::WAITING {
                    &&& final(self).tasks@ == old(self).tasks@.update(k, started(t, rc, online, now))
                    &&& final(self).actions@ == old(self).actions@ + run_action(start_runs(t, rc, online), t)
                } else {
                    &&& final(self).tasks@ == old(self).tasks@
                    &&& final(self).actions@ == old(self).actions@
                }
            }),
    {
        match self.find_task(uid, task_id) {
            Some(i) => {
                if self.tasks[i].state == State::WAITING {
                    self.start_in_map(i, online, now);
                }
            },
            None => {},
        }
    }

    /// An application changed state. One entering the foreground becomes
    /// the foreground application. One leaving it or terminating is no
    /// longer the foreground application, and its foreground job, if any,
    /// is stopped; it retires through the completion path.
    pub fn update_app_state(&mut self, uid: i32, state: i32, now: u64)
        requires
            old(self).wf(),
        ensures
            final(self).wf(),
            final(self).front_app_uid == if foreground_state(state) {
                Some(uid as u64)
            } else if background_or_terminated_state(state) && (old(self).front_app_uid matches Some(
                v,
            ) && v as i32 == uid) {
                None
            } else {
                old(self).front_app_uid
            },
            final(self).global_front_task == if !foreground_state(state) && background_or_terminated_state(
                state,
            ) && (old(self).global_front_task matches Some(f) && f.uid == uid as u64) {
                Some(
                    status_set(
                        old(self).global_front_task->0,
                        State::STOPPED,
                        Reason::AppBackgroundOrTerminate,
                        now,
                    ),
                )
            } else {
                old(self).global_front_task
            },
            final(self).tasks@ == old(self).tasks@,
            final(self).front_notify_time == old(self).front_notify_time,
            final(self).has_event_cb == old(self).has_event_cb,
            final(self).unloading == old(self).unloading,
            final(self).unload_requested == old(self).unload_requested,
            final(self).unload_monitor_armed == old(self).unload_monitor_armed,
            final(self).next_task_id == old(self).next_task_id,
            final(self).displaced_front_task == old(self).displaced_front_task,
            final(self).total_task_count == old(self).total_task_count,
            final(self).api10_background_task_count == old(self).api10_background_task_count,
            final(self).actions@ == old(self).actions@,
    {
        if is_foreground(state) {
            self.front_app_uid = Some(uid as u64);
        } else if is_background_or_terminated(state) {
            match self.front_app_uid {
                Some(v) => {
                    if v as i32 == uid {
                        self.front_app_uid = None;
                    }
                },
                None => {},
            }
            let hit = match &self.global_front_task {
                Some(f) => f.uid == uid as u64,
                None => false,
            };
            if hit {
                let mut f = self.global_front_task.take().unwrap();
                f.set_status(State::STOPPED, Reason::AppBackgroundOrTerminate, now);
                self.global_front_task = Some(f);
            }
        }
    }

    /// One tick of the idle-unload monitor, which holds the registry at that
    /// moment. With no job live, and no unload requested before, the
    /// service starts unloading: admission fails from now on, and the
    /// return value asks the host to retire the service.
    pub fn unload_check(&mut self) -> (r: bool)
        ensures
            r == old(self).unload_due(),
            final(self).unloading == (old(self).unloading || r),
            final(self).unload_requested == (old(self).unload_requested || r),
            final(self).tasks@ == old(self).tasks@,
            final(self).global_front_task == old(self).global_front_task,
            final(self).displaced_front_task == old(self).displaced_front_task,
            final(self).front_app_uid == old(self).front_app_uid,
            final(self).front_notify_time == old(self).front_notify_time,
            final(self).has_event_cb == old(self).has_event_cb,
            final(self).unload_monitor_armed == old(self).unload_monitor_armed,
            final(self).next_task_id == old(self).next_task_id,
            final(self).total_task_count == old(self).total_task_count,
            final(self).api10_background_task_count == old(self).api10_background_task_count,
            final(self).actions@ == old(self).actions@,
    {
        if self.total_task_count != 0 || self.unload_requested {
            return false;
        }
        self.unloading = true;
        self.unload_requested = true;
        true
    }

    /// Hands the pending work to the host, oldest first.
    pub fn take_actions(&mut self) -> (r: Vec<Action>)
        ensures
            r@ == old(self).actions@,
            final(self).actions@.len() == 0,
            final(self).tasks@ == old(self).tasks@,
            final(self).global_front_task == old(self).global_front_task,
            final(self).displaced_front_task == old(self).displaced_front_task,
            final(self).same_settings(old(self)),
            final(self).next_task_id == old(self).next_task_id,
            final(self).total_task_count == old(self).total_task_count,
            final(self).api10_background_task_count == old(self).api10_background_task_count,
    {
        let mut r: Vec<Action> = Vec::new();
        std::mem::swap(&mut r, &mut self.actions);
        r
    }
}



/// `t` has the key and configuration of a job of `s0`.
pub open spec fn from_start(s0: Seq<Task>, t: Task) -> bool {
    exists|j: int| 0 <= j < s0.len() && s0[j].uid == t.uid && s0[j].task_id == t.task_id && s0[j].conf == t.conf
}

/// Progress of the sweep's retirements over `keys`, `k` of them done: jobs
/// still to retire have ended, jobs already retired that remain are legacy
/// records, and every job comes from `s0`.
pub open spec fn sweep_progress(s0: Seq<Task>, s: Seq<Task>, keys: Seq<(u64, u32)>, k: int) -> bool {
    &&& forall|j: int| 0 <= j < s.len() && pending(keys, k, #[trigger] s[j]) ==> is_terminal(s[j].state)
    &&& forall|j: int|
        0 <= j < s.len() && (exists|m: int| 0 <= m < k && keys[m] == (s[j].uid, s[j].task_id))
            ==> (#[trigger] s[j]).conf.version == Version::API9
    &&& forall|j: int| 0 <= j < s.len() ==> from_start(s0, #[trigger] s[j])
}

/// A retirement that removes a background job leaves the other jobs in
/// place, only waiting ones restarted.
proof fn lemma_retire_restarts(a: Registry, b: Registry, uid: u64, task_id: u32, online: bool, now: u64)
    requires
        retire_step(a, b, uid, task_id, online, now),
        !reg_in_slot(a, task_id),
        reg_lookup(a, uid, task_id) is Some,
        is_terminal(reg_lookup(a, uid, task_id)->0.state),
        !soft_retire(reg_lookup(a, uid, task_id)->0),
    ensures
        only_waiting_restarted(a.0.remove(index_of(a.0, uid, task_id)), b.0),
{
    let t = reg_lookup(a, uid, task_id)->0;
    let rest = a.0.remove(index_of(a.0, uid, task_id));
    if t.conf.version == Version::API10 {
        lemma_gate_restarts(rest, t.uid, 0, online, now);
    } else {
        assert(b.0 == rest);
    }
}

/// `key` is the key of an overdue job of `s`.
pub open spec fn overdue_key(s: Seq<Task>, now: u64, key: (u64, u32)) -> bool {
    exists|j: int| 0 <= j < s.len() && overdue(s[j], now) && (s[j].uid, s[j].task_id) == key
}

/// Every key of `overdue_keys(s, now)` is the key of an overdue job of `s`.
proof fn lemma_overdue_keys(s: Seq<Task>, now: u64)
    ensures
        forall|m: int| 0 <= m < overdue_keys(s, now).len() ==> overdue_key(s, now, #[trigger] overdue_keys(s, now)[m]),
    decreases s.len(),
{
    if s.len() > 0 {
        let p = s.drop_last();
        lemma_overdue_keys(p, now);
        let ks = overdue_keys(s, now);
        assert forall|m: int| 0 <= m < ks.len() implies overdue_key(s, now, #[trigger] ks[m]) by {
            if m < overdue_keys(p, now).len() {
                assert(ks[m] == overdue_keys(p, now)[m]);
                assert(overdue_key(p, now, overdue_keys(p, now)[m]));
                let j = choose|j: int| 0 <= j < p.len() && overdue(p[j], now) && (p[j].uid, p[j].task_id) == overdue_keys(p, now)[m];
                assert(s[j] == p[j]);
            } else {
                assert(overdue(s.last(), now));
                assert(ks[m] == (s.last().uid, s.last().task_id));
                assert(s[s.len() - 1] == s.last());
            }
        }
    }
}

/// A retirement keeps every other background job registered.
proof fn lemma_retire_keeps(a: Registry, b: Registry, uid: u64, task_id: u32, online: bool, now: u64, u2: u64, id2: u32)
    requires
        ids_unique(a.0),
        retire_step(a, b, uid, task_id, online, now),
        id2 != task_id,
        has_task(a.0, u2, id2),
    ensures
        has_task(b.0, u2, id2),
{
    let lt = reg_lookup(a, uid, task_id);
    let p = choose|p: int| 0 <= p < a.0.len() && a.0[p].uid == u2 && a.0[p].task_id == id2;
    if lt is Some && is_terminal(lt->0.state) && !reg_in_slot(a, task_id) {
        let idx = index_of(a.0, uid, task_id);
        assert(has_task(a.0, uid, task_id));
        assert(a.0[idx].task_id == task_id);
        if soft_retire(lt->0) {
            assert(b.0[p].uid == u2 && b.0[p].task_id == id2);
        } else {
            lemma_retire_restarts(a, b, uid, task_id, online, now);
            let r = a.0.remove(idx);
            let q = if p < idx { p } else { p - 1 };
            assert(r[q] == a.0[p]);
            assert(b.0[q].uid == u2 && b.0[q].task_id == id2);
        }
    }
}

/// One retirement of the sweep keeps its progress.
proof fn lemma_sweep_absent(
    a: Registry,
    b: Registry,
    keys: Seq<(u64, u32)>,
    k: int,
    s0: Seq<Task>,
    online: bool,
    now: u64,
)
    requires
        0 <= k < keys.len(),
        ids_unique(a.0),
        a.1 matches Some(f) ==> f.task_id != keys[k].1,
        retire_step(a, b, keys[k].0, keys[k].1, online, now),
        sweep_progress(s0, a.0, keys, k),
    ensures
        sweep_progress(s0, b.0, keys, k + 1),
{
    let key = keys[k];
    let lt = reg_lookup(a, key.0, key.1);
    assert(!reg_in_slot(a, key.1));
    let idx = index_of(a.0, key.0, key.1);
    assert forall|j: int| 0 <= j < a.0.len() && a.0[j].uid == key.0 && a.0[j].task_id == key.1 implies j
        == idx && lt == Some(a.0[j]) by {
        assert(has_task(a.0, key.0, key.1));
        assert(a.0[idx].task_id == key.1);
    }
    if lt is Some && is_terminal(lt->0.state) && !soft_retire(lt->0) {
        lemma_retire_restarts(a, b, key.0, key.1, online, now);
    }
    if lt is Some {
        assert(pending(keys, k, a.0[idx]));
    }
    assert forall|j: int| 0 <= j < b.0.len() && pending(keys, k + 1, #[trigger] b.0[j]) implies is_terminal(b.0[j].state) by {
        if lt is None {
            assert(pending(keys, k, a.0[j]));
        } else if soft_retire(lt->0) {
            assert(b.0 == a.0.update(idx, released(lt->0)));
            assert(pending(keys, k, a.0[j]));
        } else {
            let r = a.0.remove(idx);
            let j2 = if j < idx { j } else { j + 1 };
            assert(r[j] == a.0[j2]);
            assert(pending(keys, k, a.0[j2]));
        }
    }
    assert forall|j: int|
        0 <= j < b.0.len() && (exists|m: int| 0 <= m < k + 1 && keys[m] == (b.0[j].uid, b.0[j].task_id))
            implies (#[trigger] b.0[j]).conf.version == Version::API9 by {
        let m = choose|m: int| 0 <= m < k + 1 && keys[m] == (b.0[j].uid, b.0[j].task_id);
        if lt is None {
            assert(b.0[j] == a.0[j]);
        } else if soft_retire(lt->0) {
            assert(b.0 == a.0.update(idx, released(lt->0)));
            if j != idx {
                assert(m != k);
            }
        } else {
            let r = a.0.remove(idx);
            let j2 = if j < idx { j } else { j + 1 };
            assert(r[j] == a.0[j2]);
            assert(m != k);
            assert(exists|m: int| 0 <= m < k && keys[m] == (a.0[j2].uid, a.0[j2].task_id));
        }
    }
    assert forall|j: int| 0 <= j < b.0.len() implies from_start(s0, #[trigger] b.0[j]) by {
        if lt is None {
            assert(b.0[j] == a.0[j]);
        } else if soft_retire(lt->0) {
            assert(b.0 == a.0.update(idx, released(lt->0)));
            assert(from_start(s0, a.0[j]));
        } else {
            let r = a.0.remove(idx);
            let j2 = if j < idx { j } else { j + 1 };
            assert(r[j] == a.0[j2]);
            assert(from_start(s0, a.0[j2]));
        }
    }
}

/// One retirement of the sweep keeps the overdue jobs among those still to
/// retire.
proof fn lemma_sweep_step(a: Registry, b: Registry, keys: Seq<(u64, u32)>, k: int, online: bool, now: u64)
    requires
        0 <= k < keys.len(),
        ids_unique(a.0),
        a.1 matches Some(f) ==> f.task_id != keys[k].1,
        retire_step(a, b, keys[k].0, keys[k].1, online, now),
        forall|j: int|
            0 <= j < a.0.len() && overdue(#[trigger] a.0[j], now) ==> age_overdue(a.0[j], now)
                && is_terminal(a.0[j].state) && pending(keys, k, a.0[j]),
    ensures
        b.1 == a.1,
        forall|j: int|
            0 <= j < b.0.len() && overdue(#[trigger] b.0[j], now) ==> age_overdue(b.0[j], now)
                && is_terminal(b.0[j].state) && pending(keys, k + 1, b.0[j]),
{
    let key = keys[k];
    let lt = reg_lookup(a, key.0, key.1);
    assert(!reg_in_slot(a, key.1));
    let idx = index_of(a.0, key.0, key.1);
    // A job of `a` that carries the current key is the one retired now.
    assert forall|j: int| 0 <= j < a.0.len() && a.0[j].uid == key.0 && a.0[j].task_id == key.1 implies j
        == idx && lt == Some(a.0[j]) by {
        assert(has_task(a.0, key.0, key.1));
        assert(a.0[idx].task_id == key.1);
    }
    assert forall|j: int| 0 <= j < b.0.len() && overdue(#[trigger] b.0[j], now) implies age_overdue(b.0[j], now)
        && is_terminal(b.0[j].state) && pending(keys, k + 1, b.0[j]) by {
        if lt is None || !is_terminal(lt->0.state) {
            assert(b.0[j] == a.0[j]);
            let m = choose|m: int| k <= m < keys.len() && keys[m] == (a.0[j].uid, a.0[j].task_id);
            assert(m != k);
            assert(k + 1 <= m < keys.len() && keys[m] == (b.0[j].uid, b.0[j].task_id));
        } else if soft_retire(lt->0) {
            assert(b.0 == a.0.update(idx, released(lt->0)));
            if j != idx {
                assert(b.0[j] == a.0[j]);
                let m = choose|m: int| k <= m < keys.len() && keys[m] == (a.0[j].uid, a.0[j].task_id);
                assert(m != k);
                assert(k + 1 <= m < keys.len() && keys[m] == (b.0[j].uid, b.0[j].task_id));
            }
        } else {
            let r = a.0.remove(idx);
            lemma_retire_restarts(a, b, key.0, key.1, online, now);
            assert(only_waiting_restarted(r, b.0));
            let j2 = if j < idx { j } else { j + 1 };
            assert(r[j] == a.0[j2]);
            if b.0[j] == r[j] {
                let m = choose|m: int| k <= m < keys.len() && keys[m] == (a.0[j2].uid, a.0[j2].task_id);
                assert(m != k);
                assert(k + 1 <= m < keys.len() && keys[m] == (b.0[j].uid, b.0[j].task_id));
            } else {
                assert(!overdue(r[j], now));
            }
        }
    }
}

} // verus!
