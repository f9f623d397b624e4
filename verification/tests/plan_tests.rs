use autosched::manager::SimpleAutomationManager;
use autosched::model::{AutomationTask, TaskConfig, TaskType, ItemStatus};

// 2025-01-01 00:00:00 and 23:59:59 in the reference timezone (UTC+8)
const WS: i64 = 1735660800;

fn plan_task(id: &str, enabled: bool) -> AutomationTask {
    AutomationTask {
        id: id.to_string(),
        name: format!("task {}", id),
        task_type: TaskType::Text,
        enabled,
        schedule: String::new(),
        device_ids: vec!["dev1".to_string()],
        config: TaskConfig::Text {
            title: "t".to_string(),
            message: "m".to_string(),
            signature: "s".to_string(),
            icon: None,
            link: None,
        },
        last_run: None,
        next_run: None,
        run_count: 0,
        error_count: 0,
        created_at: 0,
        updated_at: 0,
        fixed_at: None,
        interval_sec: None,
        priority: 0,
        duration_sec: Some(5),
    }
}

#[test]
fn fixed_task_yields_exactly_one_item() {
    // an enabled task with a fixed instant inside the window yields
    // exactly one planned item at that instant.
    let mut m = SimpleAutomationManager::new();
    let mut a = plan_task("a", true);
    a.fixed_at = Some(WS + 32400); // 09:00:00 local
    m.add_task_with(a, "a".to_string(), 1).unwrap();
    let count = m
        .generate_planned_for_date("2025-01-01", &vec!["a".to_string()], 42)
        .unwrap();
    assert_eq!(count, 1);
    let items = m.get_planned_for_date("2025-01-01").unwrap();
    assert_eq!(items.len(), 1);
    assert_eq!(items[0].scheduled_at, WS + 32400);
    assert_eq!(items[0].scheduled_end_at, WS + 32405);
    assert_eq!(items[0].task_id, "a");
    assert_eq!(items[0].position, 1);
    assert_eq!(items[0].status, ItemStatus::Pending);
    assert_eq!(items[0].time, "09:00:00");
    assert_eq!(items[0].date, "2025-01-01");
    assert_eq!(items[0].duration_sec, 5);
}

#[test]
fn fixed_task_outside_window_yields_nothing() {
    let mut m = SimpleAutomationManager::new();
    let mut a = plan_task("a", true);
    a.fixed_at = Some(WS - 1);
    m.add_task_with(a, "a".to_string(), 1).unwrap();
    let count = m
        .generate_planned_for_date("2025-01-01", &vec!["a".to_string()], 42)
        .unwrap();
    assert_eq!(count, 0);
}

#[test]
fn interval_occurrence_count() {
    // an interval task generates floor((window - duration)/N) + 1
    // occurrences; here (86399 - 5) / 3600 + 1 = 24.
    let mut m = SimpleAutomationManager::new();
    let mut b = plan_task("b", true);
    b.interval_sec = Some(3600);
    m.add_task_with(b, "b".to_string(), 1).unwrap();
    let count = m
        .generate_planned_for_date("2025-01-01", &vec!["b".to_string()], 42)
        .unwrap();
    assert_eq!(count, 24);
    let items = m.get_planned_for_date("2025-01-01").unwrap();
    for (k, it) in items.iter().enumerate() {
        assert_eq!(it.scheduled_at, WS + (k as i64) * 3600);
        assert_eq!(it.position as usize, k + 1);
    }
}

#[test]
fn interval_occurrences_cut_by_duration() {
    // an occurrence whose end would cross the window end is dropped, not
    // clipped: with a 7000-second duration the last hour mark cannot fit
    let mut m = SimpleAutomationManager::new();
    let mut b = plan_task("b", true);
    b.interval_sec = Some(3600);
    b.duration_sec = Some(7000);
    m.add_task_with(b, "b".to_string(), 1).unwrap();
    let count = m
        .generate_planned_for_date("2025-01-01", &vec!["b".to_string()], 42)
        .unwrap();
    // (86399 - 7000) / 3600 + 1 = 23
    assert_eq!(count, 23);
}

#[test]
fn replanning_is_identical_up_to_ids() {
    // re-running the planner with the same task set and order for
    // the same date yields a queue identical up to item ids (and
    // creation stamps).
    let mut m = SimpleAutomationManager::new();
    let mut a = plan_task("a", true);
    a.fixed_at = Some(WS + 32400);
    let mut b = plan_task("b", true);
    b.interval_sec = Some(3600);
    m.add_task_with(a, "a".to_string(), 1).unwrap();
    m.add_task_with(b, "b".to_string(), 1).unwrap();
    let order = vec!["a".to_string(), "b".to_string()];
    m.generate_planned_for_date("2025-01-01", &order, 42).unwrap();
    let first = m.get_planned_for_date("2025-01-01").unwrap();
    m.generate_planned_for_date("2025-01-01", &order, 43).unwrap();
    let second = m.get_planned_for_date("2025-01-01").unwrap();
    assert_eq!(first.len(), second.len());
    for (x, y) in first.iter().zip(second.iter()) {
        assert_eq!(x.task_id, y.task_id);
        assert_eq!(x.date, y.date);
        assert_eq!(x.time, y.time);
        assert_eq!(x.position, y.position);
        assert_eq!(x.status, y.status);
        assert_eq!(x.scheduled_at, y.scheduled_at);
        assert_eq!(x.scheduled_end_at, y.scheduled_end_at);
        assert_eq!(x.duration_sec, y.duration_sec);
    }
}

#[test]
fn higher_priority_wins_scenario() {
    // the fixed-against-interval scenario: task A (fixed at
    // 09:00:00, priority 0, 5 s) and task B (hourly, priority 1) planned
    // for 2025-01-01 give A at 09:00:00 and B at every hour mark except
    // 09:00:00, which A's occurrence evicts.
    let mut m = SimpleAutomationManager::new();
    let mut a = plan_task("a", true);
    a.fixed_at = Some(WS + 32400);
    let mut b = plan_task("b", true);
    b.interval_sec = Some(3600);
    m.add_task_with(a, "a".to_string(), 1).unwrap();
    m.add_task_with(b, "b".to_string(), 1).unwrap();
    let order = vec!["a".to_string(), "b".to_string()];
    let count = m.generate_planned_for_date("2025-01-01", &order, 42).unwrap();
    assert_eq!(count, 24);
    let items = m.get_planned_for_date("2025-01-01").unwrap();
    assert_eq!(items.len(), 24);
    for (k, it) in items.iter().enumerate() {
        assert_eq!(it.scheduled_at, WS + (k as i64) * 3600);
        if k == 9 {
            assert_eq!(it.task_id, "a");
        } else {
            assert_eq!(it.task_id, "b");
        }
    }
    // the reverse never happens: B's colliding occurrence is gone
    assert!(items.iter().all(|p| !(p.task_id == "b" && p.scheduled_at == WS + 32400)));
}

#[test]
fn disabled_task_never_planned() {
    // a disabled task appears in no planned queue, whatever its
    // schedule.
    let mut m = SimpleAutomationManager::new();
    let mut a = plan_task("a", false);
    a.fixed_at = Some(WS + 32400);
    let mut b = plan_task("b", false);
    b.interval_sec = Some(60);
    let mut c = plan_task("c", false);
    c.schedule = "* * * * *".to_string();
    m.add_task_with(a, "a".to_string(), 1).unwrap();
    m.add_task_with(b, "b".to_string(), 1).unwrap();
    m.add_task_with(c, "c".to_string(), 1).unwrap();
    let order = vec!["a".to_string(), "b".to_string(), "c".to_string()];
    let count = m.generate_planned_for_date("2025-01-01", &order, 42).unwrap();
    assert_eq!(count, 0);
    assert!(m.get_planned_for_date("2025-01-01").unwrap().is_empty());
}

#[test]
fn cron_five_field_daily_hour() {
    // a parseable five-field expression goes through the cron engine:
    // minute 30 of hour 9, daily
    let mut m = SimpleAutomationManager::new();
    let mut c = plan_task("c", true);
    c.schedule = "30 9 * * *".to_string();
    m.add_task_with(c, "c".to_string(), 1).unwrap();
    let count = m
        .generate_planned_for_date("2025-01-01", &vec!["c".to_string()], 42)
        .unwrap();
    assert_eq!(count, 1);
    let items = m.get_planned_for_date("2025-01-01").unwrap();
    assert_eq!(items[0].time, "09:30:00");
}

#[test]
fn unparseable_fixed_hour_fallback() {
    // an expression of the shape "0 H ..." that the cron engine rejects
    // falls back to one firing at hour H
    let mut m = SimpleAutomationManager::new();
    let mut c = plan_task("c", true);
    c.schedule = "0 7 x y z".to_string();
    m.add_task_with(c, "c".to_string(), 1).unwrap();
    let count = m
        .generate_planned_for_date("2025-01-01", &vec!["c".to_string()], 42)
        .unwrap();
    assert_eq!(count, 1);
    let items = m.get_planned_for_date("2025-01-01").unwrap();
    assert_eq!(items[0].time, "07:00:00");
}

#[test]
fn gibberish_schedule_hourly_default() {
    let mut m = SimpleAutomationManager::new();
    let mut c = plan_task("c", true);
    c.schedule = "whenever".to_string();
    m.add_task_with(c, "c".to_string(), 1).unwrap();
    let count = m
        .generate_planned_for_date("2025-01-01", &vec!["c".to_string()], 42)
        .unwrap();
    assert_eq!(count, 24);
}

#[test]
fn invalid_date_rejected_without_side_effects() {
    let mut m = SimpleAutomationManager::new();
    let mut a = plan_task("a", true);
    a.fixed_at = Some(WS + 32400);
    m.add_task_with(a, "a".to_string(), 1).unwrap();
    for bad in ["2025-13-01", "2025-02-30", "not-a-date", "2025-1-1", ""] {
        let r = m.generate_planned_for_date(bad, &vec!["a".to_string()], 42);
        assert!(r.is_err(), "{} should be rejected", bad);
    }
    assert!(m.get_planned_for_date("2025-01-01").unwrap().is_empty());
}

#[test]
fn leap_year_date_accepted() {
    assert!(autosched::timefmt::parse_date("2024-02-29").is_some());
    assert!(autosched::timefmt::parse_date("2025-02-29").is_none());
    assert!(autosched::timefmt::parse_date("2000-02-29").is_some());
    assert!(autosched::timefmt::parse_date("1900-02-29").is_none());
    assert_eq!(autosched::timefmt::parse_date("2025-01-01"), Some((2025, 1, 1)));
}

#[test]
fn priorities_follow_order() {
    // planner step one: the supplied ordering is written into the tasks
    let mut m = SimpleAutomationManager::new();
    let a = plan_task("a", true);
    let b = plan_task("b", true);
    m.add_task_with(a, "a".to_string(), 1).unwrap();
    m.add_task_with(b, "b".to_string(), 1).unwrap();
    let order = vec!["b".to_string(), "a".to_string()];
    m.generate_planned_for_date("2025-01-01", &order, 42).unwrap();
    let tasks = m.get_tasks().unwrap();
    for t in &tasks {
        if t.id == "b" {
            assert_eq!(t.priority, 0);
        }
        if t.id == "a" {
            assert_eq!(t.priority, 1);
        }
    }
}

#[test]
fn replace_keeps_other_dates() {
    let mut m = SimpleAutomationManager::new();
    let mut a = plan_task("a", true);
    a.fixed_at = Some(WS + 32400);
    m.add_task_with(a, "a".to_string(), 1).unwrap();
    m.generate_planned_for_date("2025-01-01", &vec!["a".to_string()], 42).unwrap();
    // another date: the fixed instant lies outside its window
    m.generate_planned_for_date("2025-01-02", &vec!["a".to_string()], 42).unwrap();
    assert_eq!(m.get_planned_for_date("2025-01-01").unwrap().len(), 1);
    assert_eq!(m.get_planned_for_date("2025-01-02").unwrap().len(), 0);
    // replanning the first date replaces, not appends
    m.generate_planned_for_date("2025-01-01", &vec!["a".to_string()], 43).unwrap();
    assert_eq!(m.get_planned_for_date("2025-01-01").unwrap().len(), 1);
    // clearing one date leaves the rest
    m.clear_planned_for_date("2025-01-01").unwrap();
    assert!(m.get_planned_for_date("2025-01-01").unwrap().is_empty());
}
