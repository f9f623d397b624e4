use autosched::manager::SimpleAutomationManager;
use autosched::model::{AutomationTask, PlannedItem, TaskConfig, TaskType, ItemStatus};

fn disp_task(id: &str, enabled: bool) -> AutomationTask {
    AutomationTask {
        id: id.to_string(),
        name: format!("task {}", id),
        task_type: TaskType::Text,
        enabled,
        schedule: String::new(),
        device_ids: vec!["dev1".to_string()],
        config: TaskConfig::Text {
            title: "t".to_string(),
            message: "m".to_string(),
            signature: "s".to_string(),
            icon: None,
            link: None,
        },
        last_run: None,
        next_run: None,
        run_count: 0,
        error_count: 0,
        created_at: 0,
        updated_at: 0,
        fixed_at: None,
        interval_sec: None,
        priority: 0,
        duration_sec: Some(5),
    }
}

fn disp_item(id: &str, task_id: &str, at: i64) -> PlannedItem {
    PlannedItem {
        id: id.to_string(),
        task_id: task_id.to_string(),
        date: "2025-01-01".to_string(),
        time: "00:00:00".to_string(),
        position: 1,
        status: ItemStatus::Pending,
        created_at: 0,
        executed_at: None,
        scheduled_at: at,
        scheduled_end_at: at + 5,
        duration_sec: 5,
    }
}

#[test]
fn at_most_one_execution_per_second() {
    // across one simulated second, at most one candidate is selected
    // and exactly one log entry is recorded for it — even with two
    // same-second pending items.
    let mut m = SimpleAutomationManager::new();
    m.add_task_with(disp_task("a", true), "a".to_string(), 1).unwrap();
    m.add_task_with(disp_task("b", true), "b".to_string(), 1).unwrap();
    m.planned.push(disp_item("i1", "b", 1000));
    m.planned.push(disp_item("i2", "a", 1000));
    let now = 1000;
    m.expire_overdue(now);
    let picked = m.select_due(now);
    // exactly one winner; the id tiebreak makes it task "a"
    let idx = picked.expect("one candidate must be selected");
    assert_eq!(m.planned[idx].task_id, "a");
    let logs_before = m.logs.len();
    m.record_execution(idx, "log1".to_string(), now, true, None, 12).unwrap();
    assert_eq!(m.logs.len(), logs_before + 1);
    assert_eq!(m.planned[idx].status, ItemStatus::Done);
    assert_eq!(m.planned[idx].executed_at, Some(now));
}

#[test]
fn off_switch_tick_does_nothing() {
    // with the global switch off the whole tick is silent: even the
    // housekeeping pass leaves overdue pending items untouched
    let mut m = SimpleAutomationManager::new();
    m.add_task_with(disp_task("a", true), "a".to_string(), 1).unwrap();
    m.planned.push(disp_item("late", "a", 900));
    m.set_automation_enabled(false).unwrap();
    m.expire_overdue(1000);
    assert_eq!(m.planned[0].status, ItemStatus::Pending);
    assert_eq!(m.select_due(1000), None);
    assert!(m.logs.is_empty());
    m.set_automation_enabled(true).unwrap();
    m.expire_overdue(1000);
    assert_eq!(m.planned[0].status, ItemStatus::Skipped);
}

#[test]
fn adding_a_task_leaves_others_unchanged() {
    let mut m = SimpleAutomationManager::new();
    m.add_task_with(disp_task("a", true), "a".to_string(), 1).unwrap();
    let before = m.get_tasks().unwrap();
    m.add_task(disp_task("b", true)).unwrap();
    let after = m.get_tasks().unwrap();
    assert_eq!(after.len(), 2);
    assert_eq!(after[0].id, before[0].id);
    assert_eq!(after[0].name, before[0].name);
    assert_eq!(after[0].created_at, before[0].created_at);
}

#[test]
fn disabled_switch_selects_nothing() {
    let mut m = SimpleAutomationManager::new();
    m.add_task_with(disp_task("a", true), "a".to_string(), 1).unwrap();
    m.planned.push(disp_item("i1", "a", 1000));
    m.set_automation_enabled(false).unwrap();
    assert_eq!(m.select_due(1000), None);
    m.set_automation_enabled(true).unwrap();
    assert!(m.select_due(1000).is_some());
}

#[test]
fn disabled_task_not_selected() {
    let mut m = SimpleAutomationManager::new();
    m.add_task_with(disp_task("a", false), "a".to_string(), 1).unwrap();
    m.planned.push(disp_item("i1", "a", 1000));
    assert_eq!(m.select_due(1000), None);
}

#[test]
fn expiry_skips_overdue_pending() {
    // a pending item whose instant is more than one second past
    // becomes skipped without ever being executed.
    let mut m = SimpleAutomationManager::new();
    m.add_task_with(disp_task("a", true), "a".to_string(), 1).unwrap();
    m.planned.push(disp_item("late", "a", 997));
    m.planned.push(disp_item("edge", "a", 999));
    m.planned.push(disp_item("due", "a", 1000));
    m.expire_overdue(1000);
    assert_eq!(m.planned[0].status, ItemStatus::Skipped);
    assert_eq!(m.planned[0].executed_at, None);
    // exactly one second in the past is not "more than 1 second"
    assert_eq!(m.planned[1].status, ItemStatus::Pending);
    assert_eq!(m.planned[2].status, ItemStatus::Pending);
    assert!(m.logs.is_empty());
}

#[test]
fn one_shot_fixed_cleared_and_not_replanned() {
    // after one execution (successful or failed), the task's fixed
    // instant is cleared and later planning yields nothing for it.
    let ws: i64 = 1735660800;
    let mut m = SimpleAutomationManager::new();
    let mut a = disp_task("a", true);
    a.fixed_at = Some(ws + 60);
    m.add_task_with(a, "a".to_string(), 1).unwrap();
    m.planned.push(disp_item("i1", "a", ws + 60));
    m.record_execution(0, "log1".to_string(), ws + 60, false, Some("boom".to_string()), 3)
        .unwrap();
    let t = m.get_task("a").unwrap();
    assert_eq!(t.fixed_at, None);
    assert_eq!(t.run_count, 1);
    assert_eq!(t.error_count, 1);
    assert_eq!(t.last_run, Some(ws + 60));
    let count = m
        .generate_planned_for_date("2025-01-01", &vec!["a".to_string()], 50)
        .unwrap();
    assert_eq!(count, 0);
}

#[test]
fn debounce_drops_second_request() {
    // a concurrent second request for a date in flight is dropped;
    // after the first finishes, a third request goes through.
    let mut m = SimpleAutomationManager::new();
    assert!(m.try_begin_planning("2025-01-01"));
    assert!(!m.try_begin_planning("2025-01-01"));
    // an unrelated date is not blocked
    assert!(m.try_begin_planning("2025-01-02"));
    m.finish_planning("2025-01-01");
    assert!(m.try_begin_planning("2025-01-01"));
    m.finish_planning("2025-01-01");
    m.finish_planning("2025-01-02");
}

#[test]
fn logs_sorted_and_capped() {
    let mut m = SimpleAutomationManager::new();
    m.add_task_with(disp_task("a", true), "a".to_string(), 1).unwrap();
    for k in 0..105 {
        m.planned.push(disp_item(&format!("i{}", k), "a", 1000 + k as i64));
    }
    for k in 0..105 {
        m.record_execution(k, format!("log{}", k), 1000 + k as i64, true, None, 1).unwrap();
    }
    // bounded to the most recent 100
    assert_eq!(m.logs.len(), 100);
    assert_eq!(m.logs[0].executed_at, 1005);
    // most recent first, limited
    let top = m.get_logs(Some(3)).unwrap();
    assert_eq!(top.len(), 3);
    assert_eq!(top[0].executed_at, 1104);
    assert_eq!(top[1].executed_at, 1103);
    assert_eq!(top[2].executed_at, 1102);
    let all = m.get_logs(None).unwrap();
    assert_eq!(all.len(), 100);
    for w in all.windows(2) {
        assert!(w[0].executed_at >= w[1].executed_at);
    }
}

#[test]
fn manual_execution_checks() {
    let mut m = SimpleAutomationManager::new();
    m.add_task_with(disp_task("a", true), "a".to_string(), 1).unwrap();
    m.add_task_with(disp_task("b", false), "b".to_string(), 1).unwrap();
    assert_eq!(
        m.prepare_manual_execution("missing", "key").unwrap_err(),
        "任务不存在"
    );
    assert_eq!(m.prepare_manual_execution("b", "key").unwrap_err(), "任务已禁用");
    let t = m.prepare_manual_execution("a", "key123").unwrap();
    assert_eq!(t.id, "a");
    // the key was stored for the task's device
    assert_eq!(m.get_api_key("dev1"), Some("key123".to_string()));
    // a blank key is not stored
    let mut m2 = SimpleAutomationManager::new();
    m2.add_task_with(disp_task("a", true), "a".to_string(), 1).unwrap();
    m2.prepare_manual_execution("a", "   ").unwrap();
    assert_eq!(m2.get_api_key("dev1"), None);
}

#[test]
fn task_crud_round_trip() {
    let mut m = SimpleAutomationManager::new();
    m.add_task(disp_task("ignored", true)).unwrap();
    let tasks = m.get_tasks().unwrap();
    assert_eq!(tasks.len(), 1);
    // a fresh 36-character id replaces the submitted one
    assert_eq!(tasks[0].id.len(), 36);
    let mut t = tasks[0].clone();
    t.name = "renamed".to_string();
    m.update_task(t.clone(), 99).unwrap();
    let got = m.get_task(&t.id).unwrap();
    assert_eq!(got.name, "renamed");
    assert_eq!(got.updated_at, 99);
    m.delete_task(&t.id).unwrap();
    assert!(m.get_tasks().unwrap().is_empty());
    assert!(m.get_task(&t.id).is_none());
}

#[test]
fn api_key_sync_skips_empty() {
    let mut m = SimpleAutomationManager::new();
    m.sync_api_keys(vec![
        ("d1".to_string(), "k1".to_string()),
        ("d2".to_string(), String::new()),
        ("d1".to_string(), "k2".to_string()),
    ])
    .unwrap();
    assert_eq!(m.get_api_key("d1"), Some("k2".to_string()));
    assert_eq!(m.get_api_key("d2"), None);
}
