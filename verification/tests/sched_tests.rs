use prompt_vault::json::{JsonObj, JsonVal};
use prompt_vault::queue::{
    acknowledge_task, add_pending_notification, remove_pending, AcknowledgeError, PendingQueue,
};
use prompt_vault::sched::{
    calculate_tick_interval, derive_scheduler_mode, mode_name, process_due_tasks,
    reset_interval_baselines, stop_scheduler, CachedTask, SchedulerMode, SchedulerState,
};

fn task(id: &str, last_notified: i64, interval_minutes: i64, dir: &str) -> CachedTask {
    CachedTask {
        id: String::from(id),
        last_notified,
        interval_minutes,
        file_path: String::from(dir),
    }
}

#[test]
fn mode_transitions() {
    assert_eq!(derive_scheduler_mode(true, false), SchedulerMode::Idle);
    assert_eq!(derive_scheduler_mode(true, true), SchedulerMode::Active);
    assert_eq!(derive_scheduler_mode(false, true), SchedulerMode::Background);
}

#[test]
fn tick_intervals_follow_modes() {
    assert_eq!(calculate_tick_interval(true, false), None);
    assert_eq!(calculate_tick_interval(false, false), None);
    assert_eq!(calculate_tick_interval(true, true), Some(1));
    assert_eq!(calculate_tick_interval(false, true), Some(10));
}

#[test]
fn mode_names() {
    assert_eq!(mode_name(SchedulerMode::Idle), "Idle");
    assert_eq!(mode_name(SchedulerMode::Active), "Active");
    assert_eq!(mode_name(SchedulerMode::Background), "Background");
}

#[test]
fn next_trigger_clamps_interval() {
    let t = task("t", 600, 5, "d");
    assert_eq!(t.next_trigger_time(), 600 + 5 * 60);
    let clamped = task("t", 600, 0, "d");
    assert_eq!(clamped.next_trigger_time(), 600 + 60);
    assert!(t.is_due(900));
    assert!(!t.is_due(899));
}

#[test]
fn startup_with_empty_vault() {
    let mut state = SchedulerState::new(String::from("/vault"));
    let tasks: Vec<CachedTask> = Vec::new();
    let (count, writes) = reset_interval_baselines(&mut state, &tasks, 0);
    assert_eq!(count, 0);
    assert_eq!(writes.len(), 0);
    assert_eq!(state.task_cache.len(), 0);
    assert_eq!(state.pending_notifications.len(), 0);
}

#[test]
fn shutdown_behavior() {
    let mut state = SchedulerState::new(String::from("/vault"));
    state.set_running(true);
    stop_scheduler(&mut state);
    assert!(!state.is_running());
}

#[test]
fn visibility_state_update() {
    let mut state = SchedulerState::new(String::from("/vault"));
    state.set_window_visible(false);
    assert!(!state.is_window_visible());
    state.set_window_visible(true);
    assert!(state.is_window_visible());
}

#[test]
fn pending_queue_dedup() {
    let mut pending = PendingQueue::new();
    let first = add_pending_notification(&mut pending, task("a", 0, 5, "d"));
    assert!(first);
    let again = add_pending_notification(&mut pending, task("a", 9, 5, "d"));
    assert!(!again);
    assert_eq!(pending.len(), 1);
    let other = add_pending_notification(&mut pending, task("b", 0, 5, "d"));
    assert!(other);
    assert_eq!(pending.len(), 2);
}

#[test]
fn acknowledge_task_errors_on_missing_id() {
    let mut pending = PendingQueue::new();
    let r = remove_pending(&mut pending, "missing");
    assert!(matches!(r, Err(AcknowledgeError::MissingTask)));
}

#[test]
fn scheduler_baseline_scenario() {
    // One task with a five-minute interval, baseline reset at 1000.
    let mut state = SchedulerState::new(String::from("/vault"));
    let tasks = vec![task("T", 0, 5, "/vault/Coding/t")];
    let (count, writes) = reset_interval_baselines(&mut state, &tasks, 1000);
    assert_eq!(count, 1);
    assert_eq!(writes.len(), 1);
    assert_eq!(writes[0].0, "/vault/Coding/t/meta.json");
    assert_eq!(writes[0].1, 1000);

    // The cache now carries the reset baseline, as the host rewrote it.
    let mut cache = vec![task("T", 1000, 5, "/vault/Coding/t")];
    let mut pending = PendingQueue::new();

    // At 1299 the task is not yet due: nothing fires.
    let tick1 = process_due_tasks(&mut cache, &mut pending, 1299);
    assert_eq!(tick1.emitted.len(), 0);
    assert_eq!(tick1.writes.len(), 0);
    assert_eq!(pending.len(), 0);

    // At 1300 it is due: exactly one event, one baseline write.
    let tick2 = process_due_tasks(&mut cache, &mut pending, 1300);
    assert_eq!(tick2.emitted, vec![String::from("T")]);
    assert_eq!(tick2.writes.len(), 1);
    assert_eq!(tick2.writes[0].0, "/vault/Coding/t/meta.json");
    assert_eq!(tick2.writes[0].1, 1300);
    assert_eq!(pending.len(), 1);
    assert_eq!(cache[0].last_notified, 1300);

    // At 1301 nothing fires again: the baseline moved and the id is
    // still pending.
    let tick3 = process_due_tasks(&mut cache, &mut pending, 1301);
    assert_eq!(tick3.emitted.len(), 0);

    // Acknowledging removes the record and persists a fresh baseline.
    let mut meta = JsonObj::new();
    meta.set("id", JsonVal::Str(String::from("T")));
    meta.set("type", JsonVal::Str(String::from("TASK")));
    let r = acknowledge_task(&mut pending, "T", &mut meta, 1301);
    assert!(r.is_ok());
    assert_eq!(pending.len(), 0);
    match meta.get("last_notified") {
        Some(JsonVal::Int(n)) => assert_eq!(*n, 1301),
        _ => panic!("baseline not persisted"),
    }
}

#[test]
fn dedup_survives_cache_rescan() {
    // A rescan hands back the task with its stale on-disk baseline;
    // since the id is already pending, no second event fires.
    let mut cache = vec![task("T", 0, 1, "/v/t")];
    let mut pending = PendingQueue::new();
    let first = process_due_tasks(&mut cache, &mut pending, 100);
    assert_eq!(first.emitted.len(), 1);
    let mut rescanned = vec![task("T", 0, 1, "/v/t")];
    let second = process_due_tasks(&mut rescanned, &mut pending, 200);
    assert_eq!(second.emitted.len(), 0);
    assert_eq!(second.writes.len(), 1);
}

#[test]
fn payload_takes_id_from_metadata() {
    let mut meta = JsonObj::new();
    meta.set("id", JsonVal::Str(String::from("doc-9")));
    let payload = prompt_vault::queue::load_task_payload(
        meta,
        String::from("body"),
        String::from("/v/doc"),
    );
    assert_eq!(payload.id, "doc-9");
    assert_eq!(payload.content, "body");
    let bare = prompt_vault::queue::load_task_payload(
        JsonObj::new(),
        String::new(),
        String::from("/v/x"),
    );
    assert_eq!(bare.id, "");
}
