use request_manager::manager::{
    is_background_or_terminated, is_foreground, start_inner, Action, TaskManager, APP_STATE_BACKGROUND,
    APP_STATE_FOREGROUND, APP_STATE_TERMINATED,
};
use request_manager::task::{ErrorCode, Mode, Reason, State, Task, TaskConfig, Version};

const DAY: u64 = 86400;
const MONTH: u64 = 2592000;

fn conf(version: Version, mode: Mode, bundle: &str) -> TaskConfig {
    TaskConfig { version, mode, bundle: bundle.to_string() }
}

fn add_job(m: &mut TaskManager, version: Version, mode: Mode, uid: u64, now: u64) -> (ErrorCode, u32) {
    let mut id: u32 = 0;
    let top = String::from("com.example.top");
    let r = m.construct_task(conf(version, mode, "com.example.app"), uid, &mut id, 1, &top, now);
    (r, id)
}

fn state_of(m: &TaskManager, uid: u64, id: u32) -> Option<(State, Reason)> {
    m.show(uid, id).map(|i| (i.state, i.reason))
}

fn live_jobs(m: &TaskManager) -> u32 {
    let mut n = m.tasks.iter().filter(|t| !t.retired).count() as u32;
    if let Some(f) = &m.global_front_task {
        if !f.retired {
            n += 1;
        }
    }
    n
}

#[test]
fn app_quota_scenario() {
    let mut m = TaskManager::new(0);
    let mut ids = Vec::new();
    for _ in 0..9 {
        let (r, id) = add_job(&mut m, Version::API10, Mode::BACKGROUND, 7, 0);
        assert_eq!(r, ErrorCode::ErrOk);
        ids.push(id);
    }
    let (r, a) = add_job(&mut m, Version::API10, Mode::BACKGROUND, 7, 0);
    assert_eq!(r, ErrorCode::ErrOk);
    let (r, _) = add_job(&mut m, Version::API10, Mode::BACKGROUND, 7, 0);
    assert_eq!(r, ErrorCode::TaskEnqueueErr);
    assert_eq!(m.remove(7, a, true, 1), ErrorCode::ErrOk);
    let (r, _) = add_job(&mut m, Version::API10, Mode::BACKGROUND, 7, 1);
    assert_eq!(r, ErrorCode::ErrOk);
    let (r, _) = add_job(&mut m, Version::API10, Mode::BACKGROUND, 7, 1);
    assert_eq!(r, ErrorCode::TaskEnqueueErr);
    // another application is not affected
    let (r, _) = add_job(&mut m, Version::API10, Mode::BACKGROUND, 8, 1);
    assert_eq!(r, ErrorCode::ErrOk);
}

#[test]
fn app_quota_counts_legacy_jobs() {
    let mut m = TaskManager::new(0);
    for _ in 0..10 {
        assert_eq!(add_job(&mut m, Version::API9, Mode::BACKGROUND, 3, 0).0, ErrorCode::ErrOk);
    }
    assert_eq!(add_job(&mut m, Version::API10, Mode::BACKGROUND, 3, 0).0, ErrorCode::TaskEnqueueErr);
    // legacy jobs are placed without a per-application cap
    assert_eq!(add_job(&mut m, Version::API9, Mode::BACKGROUND, 3, 0).0, ErrorCode::ErrOk);
    assert_eq!(m.get_total_task_count(), 11);
    assert_eq!(m.get_api10_background_task_count(), 0);
}

#[test]
fn system_quota_scenario() {
    let mut m = TaskManager::new(0);
    let mut first = None;
    for uid in 0..30u64 {
        for _ in 0..10 {
            let (r, id) = add_job(&mut m, Version::API10, Mode::BACKGROUND, uid, 0);
            assert_eq!(r, ErrorCode::ErrOk);
            if first.is_none() {
                first = Some((uid, id));
            }
        }
    }
    assert_eq!(m.get_api10_background_task_count(), 300);
    assert_eq!(add_job(&mut m, Version::API10, Mode::BACKGROUND, 100, 0).0, ErrorCode::TaskEnqueueErr);
    let (uid, id) = first.unwrap();
    assert_eq!(m.stop(uid, id, true, 1), ErrorCode::ErrOk);
    assert_eq!(m.get_api10_background_task_count(), 299);
    assert_eq!(add_job(&mut m, Version::API10, Mode::BACKGROUND, 100, 1).0, ErrorCode::ErrOk);
    assert_eq!(add_job(&mut m, Version::API10, Mode::BACKGROUND, 101, 1).0, ErrorCode::TaskEnqueueErr);
    // legacy jobs are not held to the schema-V10 quota
    assert_eq!(add_job(&mut m, Version::API9, Mode::BACKGROUND, 101, 1).0, ErrorCode::ErrOk);
    assert_eq!(m.get_total_task_count(), 301);
}

#[test]
fn running_cap_per_app() {
    let mut m = TaskManager::new(0);
    let mut ids = Vec::new();
    for _ in 0..7 {
        let (r, id) = add_job(&mut m, Version::API10, Mode::BACKGROUND, 5, 0);
        assert_eq!(r, ErrorCode::ErrOk);
        ids.push(id);
    }
    for id in &ids {
        assert_eq!(m.start(5, *id, true, 1), ErrorCode::ErrOk);
    }
    let running = ids.iter().filter(|id| state_of(&m, 5, **id).unwrap().0 == State::RUNNING).count();
    assert_eq!(running, 5);
    assert_eq!(m.get_running_background_task_count(5), 5);
    assert_eq!(state_of(&m, 5, ids[5]), Some((State::WAITING, Reason::RunningTaskMeetLimits)));
    assert_eq!(state_of(&m, 5, ids[6]), Some((State::WAITING, Reason::RunningTaskMeetLimits)));
    let runs = m.take_actions();
    assert_eq!(runs.len(), 5);
    // a running job finishes: one waiting job takes its place
    m.after_task_processed(5, ids[0], State::COMPLETED, Reason::Default, true, 2);
    assert_eq!(state_of(&m, 5, ids[0]), None);
    assert_eq!(state_of(&m, 5, ids[5]).unwrap().0, State::RUNNING);
    assert_eq!(state_of(&m, 5, ids[6]).unwrap().0, State::WAITING);
    assert_eq!(m.get_running_background_task_count(5), 5);
    assert_eq!(m.take_actions(), vec![Action::Run { uid: 5, task_id: ids[5] }]);
}

#[test]
fn legacy_jobs_are_not_gated() {
    let mut m = TaskManager::new(0);
    for _ in 0..7 {
        let (_, id) = add_job(&mut m, Version::API9, Mode::BACKGROUND, 5, 0);
        assert_eq!(m.start(5, id, true, 1), ErrorCode::ErrOk);
        assert_eq!(state_of(&m, 5, id).unwrap().0, State::RUNNING);
    }
    assert_eq!(m.get_running_background_task_count(5), 0);
}

#[test]
fn front_job_displacement() {
    let mut m = TaskManager::new(0);
    m.update_app_state(42, APP_STATE_FOREGROUND, 0);
    assert_eq!(m.front_app_uid, Some(42));
    let (r, f1) = add_job(&mut m, Version::API10, Mode::FRONTEND, 42, 0);
    assert_eq!(r, ErrorCode::ErrOk);
    assert_eq!(m.start(42, f1, true, 1), ErrorCode::ErrOk);
    let (r, f2) = add_job(&mut m, Version::API10, Mode::FRONTEND, 42, 2);
    assert_eq!(r, ErrorCode::ErrOk);
    let displaced = m.displaced_front_task.as_ref().unwrap();
    assert_eq!(displaced.task_id, f1);
    assert_eq!(displaced.state, State::STOPPED);
    assert_eq!(displaced.reason, Reason::StoppedByNewFrontTask);
    assert_eq!(m.global_front_task.as_ref().unwrap().task_id, f2);
    assert!(m.tasks.iter().all(|t| t.conf.mode == Mode::BACKGROUND));
    assert_eq!(state_of(&m, 42, f1), Some((State::STOPPED, Reason::StoppedByNewFrontTask)));
    assert_eq!(m.query_mime_type(42, f1), "");
    assert_eq!(state_of(&m, 42, f2), Some((State::INITIALIZED, Reason::Default)));
    // the foreground job is visible under any owner
    assert_eq!(state_of(&m, 99, f2), Some((State::INITIALIZED, Reason::Default)));
    assert_eq!(m.get_total_task_count(), 1);
    assert_eq!(m.get_api10_background_task_count(), 0);
}

#[test]
fn front_job_needs_front_app() {
    let mut m = TaskManager::new(0);
    m.update_app_state(42, APP_STATE_FOREGROUND, 0);
    assert_eq!(add_job(&mut m, Version::API10, Mode::FRONTEND, 43, 0).0, ErrorCode::TaskModeErr);
    assert_eq!(m.get_total_task_count(), 0);
    // with no foreground uid known, the bundle decides
    m.update_app_state(42, APP_STATE_BACKGROUND, 0);
    assert_eq!(m.front_app_uid, None);
    let mut id = 0;
    let top = String::from("com.example.app");
    let r = m.construct_task(conf(Version::API9, Mode::FRONTEND, "com.example.app"), 43, &mut id, 0, &top, 0);
    assert_eq!(r, ErrorCode::ErrOk);
    let r = m.construct_task(conf(Version::API9, Mode::FRONTEND, "com.other"), 43, &mut id, 0, &top, 0);
    assert_eq!(r, ErrorCode::TaskModeErr);
}

#[test]
fn app_leaving_foreground_stops_its_job() {
    let mut m = TaskManager::new(0);
    m.update_app_state(42, APP_STATE_FOREGROUND, 0);
    let (_, f) = add_job(&mut m, Version::API10, Mode::FRONTEND, 42, 0);
    assert_eq!(m.start(42, f, true, 1), ErrorCode::ErrOk);
    m.update_app_state(42, APP_STATE_TERMINATED, 2);
    assert_eq!(m.front_app_uid, None);
    assert_eq!(state_of(&m, 42, f), Some((State::STOPPED, Reason::AppBackgroundOrTerminate)));
    assert_eq!(m.get_total_task_count(), 1);
    m.after_task_processed(42, f, State::COMPLETED, Reason::Default, true, 3);
    assert_eq!(state_of(&m, 42, f), None);
    assert_eq!(m.get_total_task_count(), 0);
}

#[test]
fn front_job_modes() {
    let mut m = TaskManager::new(0);
    m.update_app_state(42, APP_STATE_FOREGROUND, 0);
    let (_, f) = add_job(&mut m, Version::API10, Mode::FRONTEND, 42, 0);
    assert_eq!(m.pause(42, f, 1), ErrorCode::TaskModeErr);
    assert_eq!(m.resume(42, f, true, 1), ErrorCode::TaskModeErr);
}

#[test]
fn start_twice_is_refused() {
    let mut m = TaskManager::new(0);
    let (_, id) = add_job(&mut m, Version::API10, Mode::BACKGROUND, 1, 0);
    assert_eq!(m.start(1, id, true, 1), ErrorCode::ErrOk);
    assert_eq!(m.take_actions(), vec![Action::Run { uid: 1, task_id: id }]);
    assert_eq!(m.start(1, id, true, 2), ErrorCode::TaskStateErr);
    assert_eq!(state_of(&m, 1, id), Some((State::RUNNING, Reason::Default)));
    assert!(m.take_actions().is_empty());
    assert_eq!(m.start(1, id + 100, true, 2), ErrorCode::TaskNotFound);
    assert_eq!(m.start(2, id, true, 2), ErrorCode::TaskNotFound);
}

#[test]
fn start_offline_does_nothing() {
    let mut m = TaskManager::new(0);
    let (_, id) = add_job(&mut m, Version::API10, Mode::BACKGROUND, 1, 0);
    assert_eq!(m.start(1, id, false, 1), ErrorCode::ErrOk);
    assert_eq!(state_of(&m, 1, id), Some((State::INITIALIZED, Reason::Default)));
    assert!(m.take_actions().is_empty());
}

#[test]
fn pause_and_resume() {
    let mut m = TaskManager::new(0);
    let (_, id) = add_job(&mut m, Version::API10, Mode::BACKGROUND, 1, 0);
    assert_eq!(m.pause(1, id, 1), ErrorCode::TaskStateErr);
    assert_eq!(m.resume(1, id, true, 1), ErrorCode::TaskStateErr);
    assert_eq!(m.start(1, id, true, 1), ErrorCode::ErrOk);
    assert_eq!(m.pause(1, id, 2), ErrorCode::ErrOk);
    assert_eq!(state_of(&m, 1, id), Some((State::PAUSED, Reason::UserOperation)));
    assert_eq!(m.pause(1, id, 2), ErrorCode::TaskStateErr);
    assert_eq!(m.resume(1, id, true, 3), ErrorCode::ErrOk);
    assert_eq!(state_of(&m, 1, id), Some((State::RUNNING, Reason::Default)));
    assert_eq!(m.pause(1, id + 1, 2), ErrorCode::TaskNotFound);
    assert_eq!(m.resume(1, id + 1, true, 2), ErrorCode::TaskNotFound);
}

#[test]
fn stop_and_remove() {
    let mut m = TaskManager::new(0);
    let (_, a) = add_job(&mut m, Version::API10, Mode::BACKGROUND, 1, 0);
    let (_, b) = add_job(&mut m, Version::API10, Mode::BACKGROUND, 1, 0);
    assert_eq!(m.get_total_task_count(), 2);
    assert_eq!(m.stop(1, a, true, 1), ErrorCode::ErrOk);
    assert_eq!(state_of(&m, 1, a), None);
    assert_eq!(m.stop(1, a, true, 1), ErrorCode::TaskNotFound);
    assert_eq!(m.get_total_task_count(), 1);
    assert_eq!(m.remove(1, b, true, 2), ErrorCode::ErrOk);
    assert_eq!(m.remove(1, b, true, 2), ErrorCode::TaskNotFound);
    assert_eq!(m.get_total_task_count(), 0);
    assert_eq!(m.get_api10_background_task_count(), 0);
    assert!(m.tasks.is_empty());
}

#[test]
fn legacy_job_keeps_its_record() {
    let mut m = TaskManager::new(0);
    let (_, id) = add_job(&mut m, Version::API9, Mode::BACKGROUND, 1, 0);
    assert_eq!(m.start(1, id, true, 1), ErrorCode::ErrOk);
    assert_eq!(m.stop(1, id, true, 2), ErrorCode::ErrOk);
    assert_eq!(state_of(&m, 1, id), Some((State::STOPPED, Reason::UserOperation)));
    assert_eq!(m.get_total_task_count(), 0);
    assert_eq!(m.tasks[0].files, 0);
    assert!(m.tasks[0].retired);
    assert_eq!(m.stop(1, id, true, 2), ErrorCode::TaskStateErr);
    // a second completion report does not count it twice
    m.after_task_processed(1, id, State::FAILED, Reason::RequestError, true, 3);
    assert_eq!(m.get_total_task_count(), 0);
    assert_eq!(m.remove(1, id, true, 4), ErrorCode::ErrOk);
    assert_eq!(state_of(&m, 1, id), None);
    assert_eq!(m.get_total_task_count(), 0);
}

#[test]
fn counter_matches_registry() {
    let mut m = TaskManager::new(0);
    let mut ids = Vec::new();
    for k in 0..6u64 {
        let v = if k % 2 == 0 { Version::API9 } else { Version::API10 };
        let (r, id) = add_job(&mut m, v, Mode::BACKGROUND, k % 3, 0);
        assert_eq!(r, ErrorCode::ErrOk);
        ids.push((k % 3, id));
        assert_eq!(m.get_total_task_count(), live_jobs(&m));
    }
    for (n, (uid, id)) in ids.iter().enumerate() {
        if n % 2 == 0 {
            assert_eq!(m.stop(*uid, *id, true, 1), ErrorCode::ErrOk);
        } else {
            assert_eq!(m.remove(*uid, *id, true, 1), ErrorCode::ErrOk);
        }
        assert_eq!(m.get_total_task_count(), live_jobs(&m));
    }
    for (uid, id) in &ids {
        m.remove(*uid, *id, true, 2);
        assert_eq!(m.get_total_task_count(), live_jobs(&m));
    }
    assert_eq!(m.get_total_task_count(), 0);
}

#[test]
fn network_wait_timeout() {
    let mut m = TaskManager::new(0);
    let (_, id) = add_job(&mut m, Version::API10, Mode::BACKGROUND, 1, 0);
    let (_, keep) = add_job(&mut m, Version::API10, Mode::BACKGROUND, 1, 0);
    assert_eq!(m.start(1, id, true, 1), ErrorCode::ErrOk);
    assert_eq!(m.set_task_status(1, id, State::WAITING, Reason::NetWorkOffline, 10), ErrorCode::ErrOk);
    assert_eq!(m.tasks[0].waiting_since, Some(10));
    m.monitor_task(true, 10 + DAY);
    assert_eq!(state_of(&m, 1, id).unwrap().0, State::WAITING);
    m.monitor_task(true, 11 + DAY);
    assert_eq!(state_of(&m, 1, id), None);
    assert_eq!(state_of(&m, 1, keep), Some((State::INITIALIZED, Reason::Default)));
    assert_eq!(m.get_total_task_count(), 1);
}

#[test]
fn legacy_network_wait_timeout() {
    let mut m = TaskManager::new(0);
    let (_, id) = add_job(&mut m, Version::API9, Mode::BACKGROUND, 1, 0);
    assert_eq!(m.start(1, id, true, 1), ErrorCode::ErrOk);
    assert_eq!(m.set_task_status(1, id, State::WAITING, Reason::UnSupportedNetWorkType, 10), ErrorCode::ErrOk);
    m.monitor_task(true, 11 + DAY);
    assert_eq!(state_of(&m, 1, id), Some((State::STOPPED, Reason::WaittingNetWorkOneday)));
    assert_eq!(m.get_total_task_count(), 0);
}

#[test]
fn month_old_jobs_are_stopped() {
    let mut m = TaskManager::new(0);
    let (_, v10) = add_job(&mut m, Version::API10, Mode::BACKGROUND, 1, 0);
    let (_, v9) = add_job(&mut m, Version::API9, Mode::BACKGROUND, 1, 0);
    let (_, young) = add_job(&mut m, Version::API10, Mode::BACKGROUND, 1, 100);
    m.monitor_task(true, MONTH);
    assert!(state_of(&m, 1, v10).is_some());
    m.monitor_task(true, MONTH + 1);
    assert_eq!(state_of(&m, 1, v10), None);
    assert_eq!(state_of(&m, 1, v9), Some((State::INITIALIZED, Reason::Default)));
    assert!(state_of(&m, 1, young).is_some());
    assert_eq!(m.get_total_task_count(), 2);
    assert_eq!(m.get_api10_background_task_count(), 1);
}

#[test]
fn set_task_status_rules() {
    let mut m = TaskManager::new(0);
    let (_, id) = add_job(&mut m, Version::API10, Mode::BACKGROUND, 1, 0);
    assert_eq!(m.set_task_status(1, id, State::RUNNING, Reason::Default, 1), ErrorCode::TaskStateErr);
    assert_eq!(m.set_task_status(1, id, State::PAUSED, Reason::UserOperation, 1), ErrorCode::TaskStateErr);
    assert_eq!(m.set_task_status(1, id, State::WAITING, Reason::RunningTaskMeetLimits, 1), ErrorCode::ErrOk);
    assert_eq!(m.tasks[0].waiting_since, None);
    assert_eq!(m.set_task_status(2, id, State::WAITING, Reason::NetWorkOffline, 1), ErrorCode::TaskNotFound);
}

#[test]
fn network_resume_retries() {
    let mut m = TaskManager::new(0);
    let (_, id) = add_job(&mut m, Version::API10, Mode::BACKGROUND, 1, 0);
    let (_, other) = add_job(&mut m, Version::API10, Mode::BACKGROUND, 1, 0);
    assert_eq!(m.start(1, id, true, 1), ErrorCode::ErrOk);
    m.take_actions();
    assert_eq!(m.set_task_status(1, id, State::WAITING, Reason::NetWorkOffline, 2), ErrorCode::ErrOk);
    assert_eq!(m.network_waiting_tasks(), vec![(1, id)]);
    m.resume_by_network(1, id, true, 12);
    let t = &m.tasks[0];
    assert_eq!(t.state, State::RETRYING);
    assert!(t.retry);
    assert_eq!(t.tries, 1);
    assert_eq!(t.waiting_since, None);
    assert_eq!(m.take_actions(), vec![Action::Run { uid: 1, task_id: id }]);
    // a job that no longer waits is left alone
    m.resume_by_network(1, other, true, 12);
    assert_eq!(state_of(&m, 1, other).unwrap().0, State::INITIALIZED);
    assert!(m.network_waiting_tasks().is_empty());
}

#[test]
fn idle_unload_scenario() {
    let mut m = TaskManager::new(0);
    let (_, a) = add_job(&mut m, Version::API10, Mode::BACKGROUND, 1, 0);
    assert_eq!(m.unload_check(), false);
    assert_eq!(m.remove(1, a, true, 1), ErrorCode::ErrOk);
    assert_eq!(m.get_total_task_count(), 0);
    assert_eq!(m.take_actions(), vec![Action::ArmUnloadMonitor]);
    // the monitor is armed once only
    let (_, b) = add_job(&mut m, Version::API10, Mode::BACKGROUND, 1, 2);
    assert_eq!(m.unload_check(), false);
    assert_eq!(m.remove(1, b, true, 3), ErrorCode::ErrOk);
    assert!(m.take_actions().is_empty());
    // sixty seconds later: nothing admitted, the unload is requested once
    assert_eq!(m.unload_check(), true);
    assert_eq!(m.unload_check(), false);
    assert!(m.unloading);
    assert_eq!(add_job(&mut m, Version::API10, Mode::BACKGROUND, 1, 70).0, ErrorCode::UnloadingSA);
    assert_eq!(add_job(&mut m, Version::API9, Mode::FRONTEND, 1, 70).0, ErrorCode::UnloadingSA);
}

#[test]
fn front_notify_rules() {
    let mut m = TaskManager::new(5);
    let bundle = String::from("com.example.app");
    let top = String::from("com.example.app");
    assert!(!m.front_notify(1, &bundle, &top, 10));
    assert_eq!(m.front_notify_time, 5);
    m.register_callback();
    assert!(m.has_event_callback());
    assert!(m.front_notify(1, &bundle, &top, 10));
    assert_eq!(m.front_notify_time, 10);
    m.update_app_state(2, APP_STATE_FOREGROUND, 11);
    assert!(!m.front_notify(1, &bundle, &top, 12));
    assert!(m.front_notify(2, &String::from("x"), &top, 13));
    assert_eq!(m.front_notify_time, 13);
}

#[test]
fn query_mime_type_and_show() {
    let mut m = TaskManager::new(0);
    let (_, id) = add_job(&mut m, Version::API10, Mode::BACKGROUND, 1, 4);
    assert_eq!(m.query_mime_type(1, id), "");
    assert_eq!(m.set_mime_type(1, id, String::from("text/plain")), ErrorCode::ErrOk);
    assert_eq!(m.set_mime_type(2, id, String::from("x")), ErrorCode::TaskNotFound);
    assert_eq!(m.query_mime_type(1, id), "text/plain");
    assert_eq!(m.query_mime_type(2, id), "");
    let info = m.show(1, id).unwrap();
    assert_eq!(info.ctime, 4);
    assert_eq!(info.bundle, "com.example.app");
    assert_eq!(info.version, Version::API10);
    assert!(m.show(1, id + 1).is_none());
}

#[test]
fn clear_all_resets() {
    let mut m = TaskManager::new(0);
    add_job(&mut m, Version::API10, Mode::BACKGROUND, 1, 0);
    add_job(&mut m, Version::API9, Mode::BACKGROUND, 2, 0);
    m.clear_all_task();
    assert_eq!(m.get_total_task_count(), 0);
    assert_eq!(m.get_api10_background_task_count(), 0);
    assert!(m.tasks.is_empty());
    // identities stay fresh
    let (_, id) = add_job(&mut m, Version::API10, Mode::BACKGROUND, 1, 0);
    assert_eq!(id, 3);
}

#[test]
fn app_state_codes() {
    assert!(is_foreground(APP_STATE_FOREGROUND));
    assert!(!is_foreground(APP_STATE_BACKGROUND));
    assert!(is_background_or_terminated(APP_STATE_BACKGROUND));
    assert!(is_background_or_terminated(APP_STATE_TERMINATED));
    assert!(!is_background_or_terminated(APP_STATE_FOREGROUND));
}

#[test]
fn start_gate_on_record() {
    let mut t = Task::new(conf(Version::API10, Mode::BACKGROUND, "b"), 1, 1, 0, 0);
    assert!(!start_inner(&mut t, 5, true, 1));
    assert_eq!((t.state, t.reason), (State::WAITING, Reason::RunningTaskMeetLimits));
    assert!(start_inner(&mut t, 4, true, 2));
    assert_eq!(t.state, State::RUNNING);
    assert!(!t.retry);
    let mut f = Task::new(conf(Version::API10, Mode::FRONTEND, "b"), 1, 2, 0, 0);
    assert!(start_inner(&mut f, 9, true, 1));
    assert_eq!(f.state, State::RUNNING);
}

#[test]
fn sweep_stops_with_reasons_and_counts() {
    let mut m = TaskManager::new(0);
    let (_, old10) = add_job(&mut m, Version::API10, Mode::BACKGROUND, 1, 0);
    let (_, wait10) = add_job(&mut m, Version::API10, Mode::BACKGROUND, 2, 100);
    let (_, wait9) = add_job(&mut m, Version::API9, Mode::BACKGROUND, 2, 100);
    let (_, fresh) = add_job(&mut m, Version::API10, Mode::BACKGROUND, 3, 100);
    for (uid, id) in [(2, wait10), (2, wait9)] {
        assert_eq!(m.start(uid, id, true, 101), ErrorCode::ErrOk);
        assert_eq!(m.set_task_status(uid, id, State::WAITING, Reason::NetWorkOffline, 200), ErrorCode::ErrOk);
    }
    m.take_actions();
    assert_eq!(m.get_total_task_count(), 4);
    assert_eq!(m.get_api10_background_task_count(), 3);
    m.monitor_task(true, MONTH + 1);
    assert_eq!(state_of(&m, 1, old10), None);
    assert_eq!(state_of(&m, 2, wait10), None);
    assert_eq!(state_of(&m, 2, wait9), Some((State::STOPPED, Reason::WaittingNetWorkOneday)));
    assert_eq!(state_of(&m, 3, fresh), Some((State::INITIALIZED, Reason::Default)));
    assert_eq!(m.get_total_task_count(), 1);
    assert_eq!(m.get_api10_background_task_count(), 1);
    assert!(m.take_actions().is_empty());
}

#[test]
fn sweep_arms_unload_when_idle() {
    let mut m = TaskManager::new(0);
    let (_, id) = add_job(&mut m, Version::API10, Mode::BACKGROUND, 1, 0);
    m.monitor_task(true, MONTH + 1);
    assert_eq!(state_of(&m, 1, id), None);
    assert_eq!(m.take_actions(), vec![Action::ArmUnloadMonitor]);
    m.monitor_task(true, MONTH + 2);
    assert!(m.take_actions().is_empty());
}

#[test]
fn legacy_removal_restarts_nothing() {
    let mut m = TaskManager::new(0);
    let mut ids = Vec::new();
    for _ in 0..6 {
        let (_, id) = add_job(&mut m, Version::API10, Mode::BACKGROUND, 4, 0);
        assert_eq!(m.start(4, id, true, 1), ErrorCode::ErrOk);
        ids.push(id);
    }
    assert_eq!(state_of(&m, 4, ids[5]).unwrap().0, State::WAITING);
    let (_, v9) = add_job(&mut m, Version::API9, Mode::BACKGROUND, 4, 0);
    m.take_actions();
    assert_eq!(m.remove(4, v9, true, 2), ErrorCode::ErrOk);
    assert_eq!(state_of(&m, 4, ids[5]).unwrap().0, State::WAITING);
    assert!(m.take_actions().is_empty());
    // a schema-V10 retirement offers the waiting job to the start gate
    assert_eq!(m.stop(4, ids[0], true, 3), ErrorCode::ErrOk);
    assert_eq!(state_of(&m, 4, ids[5]).unwrap().0, State::RUNNING);
    assert_eq!(m.take_actions(), vec![Action::Run { uid: 4, task_id: ids[5] }]);
}

#[test]
fn sweep_covers_front_job() {
    let mut m = TaskManager::new(0);
    m.update_app_state(42, APP_STATE_FOREGROUND, 0);
    let (_, f) = add_job(&mut m, Version::API10, Mode::FRONTEND, 42, 0);
    assert_eq!(m.start(42, f, true, 1), ErrorCode::ErrOk);
    assert_eq!(m.get_total_task_count(), 1);
    m.monitor_task(true, MONTH);
    assert_eq!(state_of(&m, 42, f).unwrap().0, State::RUNNING);
    m.monitor_task(true, MONTH + 1);
    assert!(m.global_front_task.is_none());
    assert_eq!(state_of(&m, 42, f), None);
    assert_eq!(m.get_total_task_count(), 0);
    assert_eq!(m.take_actions(), vec![Action::Run { uid: 42, task_id: f }, Action::ArmUnloadMonitor]);
}

#[test]
fn front_job_can_wait_for_network() {
    let mut m = TaskManager::new(0);
    m.update_app_state(42, APP_STATE_FOREGROUND, 0);
    let (_, f) = add_job(&mut m, Version::API9, Mode::FRONTEND, 42, 0);
    assert_eq!(m.start(42, f, true, 1), ErrorCode::ErrOk);
    assert_eq!(m.set_task_status(42, f, State::PAUSED, Reason::UserOperation, 2), ErrorCode::TaskStateErr);
    assert_eq!(m.set_task_status(42, f, State::WAITING, Reason::NetWorkOffline, 2), ErrorCode::ErrOk);
    assert_eq!(m.global_front_task.as_ref().unwrap().waiting_since, Some(2));
    // a legacy foreground job keeps its record after the wait times out
    m.monitor_task(true, 3 + DAY);
    assert_eq!(state_of(&m, 42, f), Some((State::STOPPED, Reason::WaittingNetWorkOneday)));
    assert_eq!(m.get_total_task_count(), 0);
}
