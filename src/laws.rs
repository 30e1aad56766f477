use vstd::prelude::*;

use crate::count::count_where;
use crate::manager::{
    has_task, ids_unique, index_of, lemma_gate_restarts, reg_in_slot, reg_lookup, retired, Registry,
    arm_action, front_admitted, live, Action, of_uid, running_count, slot_live, TaskManager, MAX_RUNNING_TASK_COUNT_EACH_APP,
    MAX_TASK_COUNT, MAX_TASK_COUNT_EACH_APP,
};
use crate::task::{ErrorCode, Mode, Reason, State, TaskConfig, Version, is_terminal};

verus! {

/// The total counter is the number of live jobs: the background jobs that
/// are not retired legacy records, plus the foreground job unless it is one.
/// Every operation keeps `wf`, so this holds after each of them.
pub proof fn lemma_total_counts_live(m: &TaskManager)
    requires
        m.wf(),
    ensures
        m.total_task_count == count_where(m.tasks@, live()) + slot_live(m.global_front_task),
{
}

/// An application with its full share of registered jobs can have no
/// further schema-V10 background job admitted; one below it can, while the
/// system-wide schema-V10 quota has room.
pub proof fn lemma_app_quota(m: &TaskManager, conf: TaskConfig, uid: u64, top_bundle: Seq<char>)
    requires
        m.wf(),
        !m.unloading,
        conf.version == Version::API10,
        conf.mode == Mode::BACKGROUND,
    ensures
        count_where(m.tasks@, of_uid(uid)) >= MAX_TASK_COUNT_EACH_APP ==> m.admission_result(
            conf,
            uid,
            top_bundle,
        ) == ErrorCode::TaskEnqueueErr,
        count_where(m.tasks@, of_uid(uid)) < MAX_TASK_COUNT_EACH_APP && m.api10_background_task_count
            < MAX_TASK_COUNT ==> m.admission_result(conf, uid, top_bundle) == ErrorCode::ErrOk,
{
}

/// With the system-wide schema-V10 quota used up, no schema-V10 background
/// job is admitted; one below it, a job of an application with room is.
pub proof fn lemma_system_quota(m: &TaskManager, conf: TaskConfig, uid: u64, top_bundle: Seq<char>)
    requires
        m.wf(),
        !m.unloading,
        conf.version == Version::API10,
        conf.mode == Mode::BACKGROUND,
    ensures
        m.api10_background_task_count <= MAX_TASK_COUNT,
        m.api10_background_task_count == MAX_TASK_COUNT ==> m.admission_result(conf, uid, top_bundle)
            == ErrorCode::TaskEnqueueErr,
        m.api10_background_task_count == MAX_TASK_COUNT - 1 && count_where(m.tasks@, of_uid(uid))
            < MAX_TASK_COUNT_EACH_APP ==> m.admission_result(conf, uid, top_bundle) == ErrorCode::ErrOk,
{
}

/// No application ever has more schema-V10 jobs running or retrying than
/// its running cap.
pub proof fn lemma_running_cap(m: &TaskManager, uid: u64)
    requires
        m.wf(),
    ensures
        running_count(m.tasks@, uid) <= MAX_RUNNING_TASK_COUNT_EACH_APP,
{
}

/// Admitting a foreground job while another holds the slot leaves exactly
/// one foreground job registered, the new one, and the one it displaced
/// stopped for that reason (when it had not ended already).
pub proof fn lemma_front_displacement(
    a: &TaskManager,
    b: &TaskManager,
    conf: TaskConfig,
    uid: u64,
    files: usize,
    now: u64,
)
    requires
        a.wf(),
        b.wf(),
        front_admitted(a, b, conf, uid, files, now),
        a.global_front_task is Some,
        !is_terminal(a.global_front_task->0.state),
    ensures
        b.global_front_task is Some,
        b.global_front_task->0.task_id == a.next_task_id,
        forall|i: int| 0 <= i < b.tasks@.len() ==> (#[trigger] b.tasks@[i]).conf.mode != Mode::FRONTEND,
        b.displaced_front_task is Some,
        b.displaced_front_task->0.task_id == a.global_front_task->0.task_id,
        b.displaced_front_task->0.state == State::STOPPED,
        b.displaced_front_task->0.reason == Reason::StoppedByNewFrontTask,
{
    assert forall|i: int| 0 <= i < b.tasks@.len() implies (#[trigger] b.tasks@[i]).conf.mode != Mode::FRONTEND by {
        assert(b.tasks@[i].conf.mode == Mode::BACKGROUND);
    }
}

/// Idle unload happens once. The monitor is armed when no job is live and
/// never armed again; once the unload has been requested, no later check
/// requests it again; and while the service unloads, no admission succeeds.
pub proof fn lemma_unload_once(m: &TaskManager, conf: TaskConfig, uid: u64, top_bundle: Seq<char>)
    ensures
        !m.unload_monitor_armed && m.total_task_count == 0 ==> arm_action(
            m.unload_monitor_armed,
            m.total_task_count,
        ) == seq![Action::ArmUnloadMonitor],
        m.unload_monitor_armed ==> arm_action(m.unload_monitor_armed, m.total_task_count) == Seq::<Action>::empty(),
        m.unload_requested ==> !m.unload_due(),
        m.unloading ==> m.admission_result(conf, uid, top_bundle) == ErrorCode::UnloadingSA,
{
}

/// Retiring an ended schema-V10 background job (as the sweep does with
/// every overdue one) takes it out of the registry and lowers both the
/// total and the schema-V10 counter by one.
pub proof fn lemma_retire_v10(a: Registry, uid: u64, task_id: u32, online: bool, now: u64)
    requires
        ids_unique(a.0),
        !reg_in_slot(a, task_id),
        has_task(a.0, uid, task_id),
        is_terminal(reg_lookup(a, uid, task_id)->0.state),
        reg_lookup(a, uid, task_id)->0.conf.version == Version::API10,
        !reg_lookup(a, uid, task_id)->0.retired,
    ensures
        retired(a, uid, task_id, online, now).2 == a.2 - 1,
        retired(a, uid, task_id, online, now).3 == a.3 - 1,
        !has_task(retired(a, uid, task_id, online, now).0, uid, task_id),
{
    let idx = index_of(a.0, uid, task_id);
    let t = a.0[idx];
    let rest = a.0.remove(idx);
    lemma_gate_restarts(rest, t.uid, 0, online, now);
    let b = retired(a, uid, task_id, online, now).0;
    if has_task(b, uid, task_id) {
        let q = choose|q: int| 0 <= q < b.len() && b[q].uid == uid && b[q].task_id == task_id;
        assert(b[q].task_id == rest[q].task_id);
        let q2 = if q < idx { q } else { q + 1 };
        assert(rest[q] == a.0[q2]);
        assert(a.0[idx].task_id == task_id);
    }
}

} // verus!
