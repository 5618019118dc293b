use app_monitor::monitor::{millis_or_zero, now_millis, ActivityState, AppStats, Monitor, Session};

#[test]
fn starts_new_session_on_first_tick() {
    let mut m = Monitor::new(60_000);
    let closed = m.tick("Notas".into(), "notepad.exe".into(), "Bloc de notas".into(), 1_000);
    assert!(closed.is_none());
    assert_eq!(m.active_session().unwrap().process_name, "notepad.exe");
}

#[test]
fn does_not_duplicate_session_for_same_process() {
    let mut m = Monitor::new(60_000);
    m.tick("A".into(), "code.exe".into(), "VS Code".into(), 1_000);
    let started = m.tick("B (otra pestaña)".into(), "code.exe".into(), "VS Code".into(), 2_000);
    assert!(started.is_none());
    assert_eq!(m.active_session().unwrap().window_title, "B (otra pestaña)");
    assert_eq!(m.sessions().len(), 0);
}

#[test]
fn closes_previous_session_when_process_changes() {
    let mut m = Monitor::new(60_000);
    m.tick("Editor".into(), "code.exe".into(), "VS Code".into(), 1_000);
    m.tick("Navegador".into(), "chrome.exe".into(), "Chrome".into(), 5_000);
    let sessions = m.sessions();
    assert_eq!(sessions.len(), 1);
    assert_eq!(sessions[0].process_name, "code.exe");
    assert_eq!(sessions[0].duration_ms, 4_000);
    assert_eq!(sessions[0].ended_at, 5_000);
    assert_eq!(m.active_session().unwrap().process_name, "chrome.exe");
}

#[test]
fn locks_close_active_session() {
    let mut m = Monitor::new(60_000);
    m.tick("Editor".into(), "code.exe".into(), "VS Code".into(), 1_000);
    m.set_activity(ActivityState::Locked, 3_000);
    assert!(m.active_session().is_none());
    assert_eq!(m.sessions().len(), 1);
    assert_eq!(m.sessions()[0].duration_ms, 2_000);
}

#[test]
fn idle_marks_session_as_idle() {
    let mut m = Monitor::new(60_000);
    m.set_activity(ActivityState::Idle, 1_000);
    m.tick("Repo".into(), "code.exe".into(), "VS Code".into(), 2_000);
    assert!(m.active_session().unwrap().is_idle);
}

#[test]
fn clear_empties_everything() {
    let mut m = Monitor::new(60_000);
    m.tick("x".into(), "a.exe".into(), "A".into(), 1_000);
    m.tick("y".into(), "b.exe".into(), "B".into(), 2_000);
    m.clear();
    assert!(m.active_session().is_none());
    assert_eq!(m.sessions().len(), 0);
}

#[test]
fn app_stats_aggregates_correctly() {
    let mut m = Monitor::new(60_000);
    m.tick("A".into(), "code.exe".into(), "VS Code".into(), 1_000);
    m.tick("B".into(), "chrome.exe".into(), "Chrome".into(), 5_000);
    m.tick("C".into(), "code.exe".into(), "VS Code".into(), 10_000);

    let stats = m.app_stats();
    assert_eq!(stats.len(), 2);

    let code_stats = stats.iter().find(|s| s.process_name == "code.exe").unwrap();
    assert_eq!(code_stats.total_duration_ms, 4_000 + now_millis() - 10_000);
    assert_eq!(code_stats.session_count, 2);

    let chrome_stats = stats.iter().find(|s| s.process_name == "chrome.exe").unwrap();
    assert_eq!(chrome_stats.total_duration_ms, 5_000);
    assert_eq!(chrome_stats.session_count, 1);
}

fn three_ticks() -> Monitor {
    let mut m = Monitor::new(60_000);
    m.tick("A".into(), "code.exe".into(), "VS Code".into(), 1_000);
    m.tick("B".into(), "chrome.exe".into(), "Chrome".into(), 5_000);
    m.tick("C".into(), "code.exe".into(), "VS Code".into(), 10_000);
    m
}

fn find<'a>(stats: &'a [AppStats], process: &str) -> &'a AppStats {
    stats.iter().find(|s| s.process_name == process).unwrap()
}

#[test]
fn app_stats_at_counts_the_open_session_up_to_the_instant() {
    let m = three_ticks();
    let stats = m.app_stats_at(12_000).unwrap();
    assert_eq!(stats.len(), 2);
    // Sorted by decreasing total: code.exe has 4000 + 2000, chrome.exe 5000.
    assert_eq!(stats[0].process_name, "code.exe");
    assert_eq!(stats[0].application_name, "VS Code");
    assert_eq!(stats[0].total_duration_ms, 6_000);
    assert_eq!(stats[0].session_count, 2);
    assert_eq!(stats[0].first_seen, 1_000);
    assert_eq!(stats[0].last_seen, 12_000);
    assert_eq!(stats[1].process_name, "chrome.exe");
    assert_eq!(stats[1].total_duration_ms, 5_000);
    assert_eq!(stats[1].first_seen, 5_000);
    assert_eq!(stats[1].last_seen, 10_000);
}

#[test]
fn app_stats_order_follows_totals() {
    let m = three_ticks();
    let stats = m.app_stats_at(10_500).unwrap();
    // code.exe: 4000 + 500 = 4500 < chrome.exe: 5000.
    assert_eq!(stats[0].process_name, "chrome.exe");
    assert_eq!(stats[1].process_name, "code.exe");
    assert_eq!(stats[1].total_duration_ms, 4_500);
}

#[test]
fn app_stats_open_session_before_its_start_counts_zero() {
    let mut m = Monitor::new(60_000);
    m.tick("A".into(), "code.exe".into(), "VS Code".into(), 5_000);
    let stats = m.app_stats_at(1_000).unwrap();
    assert_eq!(stats.len(), 1);
    assert_eq!(stats[0].total_duration_ms, 0);
    assert_eq!(stats[0].session_count, 1);
    assert_eq!(stats[0].first_seen, 5_000);
    assert_eq!(stats[0].last_seen, 1_000);
}

#[test]
fn app_stats_keeps_first_application_name() {
    let mut m = Monitor::new(60_000);
    m.tick("A".into(), "code.exe".into(), "VS Code".into(), 1_000);
    m.tick("B".into(), "chrome.exe".into(), "Chrome".into(), 2_000);
    m.tick("C".into(), "code.exe".into(), "Visual Studio Code".into(), 3_000);
    m.close_active(4_000);
    let stats = m.app_stats_at(4_000).unwrap();
    assert_eq!(find(&stats, "code.exe").application_name, "VS Code");
    assert_eq!(find(&stats, "code.exe").total_duration_ms, 2_000);
}

#[test]
fn app_stats_overflow_is_reported() {
    let mut m = Monitor::new(60_000);
    m.tick("A".into(), "a.exe".into(), "A".into(), 0);
    m.tick("B".into(), "b.exe".into(), "B".into(), u64::MAX);
    m.tick("C".into(), "a.exe".into(), "A".into(), u64::MAX);
    m.close_active(u64::MAX);
    m.tick("D".into(), "b.exe".into(), "B".into(), 0);
    m.close_active(u64::MAX);
    // b.exe now totals 0 + u64::MAX: still fits.
    assert!(m.app_stats_at(0).is_some());
    m.tick("E".into(), "b.exe".into(), "B".into(), 0);
    m.close_active(1);
    // b.exe would total u64::MAX + 1.
    assert!(m.app_stats_at(0).is_none());
    assert!(m.app_stats().is_empty());
}

#[test]
fn app_stats_of_empty_monitor_is_empty() {
    let m = Monitor::new(60_000);
    assert!(m.app_stats_at(1_000).unwrap().is_empty());
    assert!(m.app_stats().is_empty());
}

#[test]
fn stats_account_for_every_session() {
    let m = three_ticks();
    let stats = m.app_stats_at(20_000).unwrap();
    let counts: u64 = stats.iter().map(|s| s.session_count).sum();
    let totals: u64 = stats.iter().map(|s| s.total_duration_ms).sum();
    assert_eq!(counts, m.sessions().len() as u64 + 1);
    assert_eq!(totals, 20_000 - 1_000);
}

#[test]
fn clear_leaves_no_statistics() {
    let mut m = three_ticks();
    m.clear();
    assert!(m.app_stats_at(50_000).unwrap().is_empty());
    assert_eq!(m.idle_threshold_ms(), 60_000);
}

#[test]
fn new_monitor_is_empty() {
    let m = Monitor::new(120_000);
    assert_eq!(m.idle_threshold_ms(), 120_000);
    assert!(m.active_session().is_none());
    assert!(m.sessions().is_empty());
}

#[test]
fn close_active_returns_the_recorded_session() {
    let mut m = Monitor::new(60_000);
    assert!(m.close_active(5).is_none());
    m.tick("Editor".into(), "code.exe".into(), "VS Code".into(), 1_000);
    let closed = m.close_active(4_500).unwrap();
    assert_eq!(closed.duration_ms, 3_500);
    assert_eq!(closed.ended_at, 4_500);
    assert!(m.active_session().is_none());
    assert_eq!(m.sessions().len(), 1);
    assert_eq!(m.sessions()[0].process_name, closed.process_name);
    assert_eq!(m.sessions()[0].duration_ms, closed.duration_ms);
}

#[test]
fn tick_returns_the_session_it_closed() {
    let mut m = Monitor::new(60_000);
    m.tick("Editor".into(), "code.exe".into(), "VS Code".into(), 1_000);
    let closed = m.tick("Web".into(), "chrome.exe".into(), "Chrome".into(), 3_000).unwrap();
    assert_eq!(closed.process_name, "code.exe");
    assert_eq!(closed.window_title, "Editor");
    assert_eq!(closed.duration_ms, 2_000);
    let open = m.active_session().unwrap();
    assert_eq!(open.started_at, 3_000);
    assert_eq!(open.ended_at, 0);
    assert_eq!(open.duration_ms, 0);
}

#[test]
fn same_process_keeps_the_start_and_updates_idleness() {
    let mut m = Monitor::new(60_000);
    m.tick("A".into(), "code.exe".into(), "VS Code".into(), 1_000);
    m.set_activity(ActivityState::Idle, 1_500);
    m.tick("A2".into(), "code.exe".into(), "VS Code".into(), 2_000);
    let s = m.active_session().unwrap();
    assert_eq!(s.started_at, 1_000);
    assert!(s.is_idle);
    m.set_activity(ActivityState::Active, 2_500);
    m.tick("A3".into(), "code.exe".into(), "VS Code".into(), 3_000);
    assert!(!m.active_session().unwrap().is_idle);
    assert!(m.sessions().is_empty());
}

#[test]
fn suspend_closes_and_idle_does_not() {
    let mut m = Monitor::new(60_000);
    m.tick("A".into(), "code.exe".into(), "VS Code".into(), 1_000);
    m.set_activity(ActivityState::Idle, 2_000);
    assert!(m.active_session().is_some());
    m.set_activity(ActivityState::Suspended, 7_000);
    assert!(m.active_session().is_none());
    assert_eq!(m.sessions()[0].duration_ms, 6_000);
    m.set_activity(ActivityState::Locked, 8_000);
    assert_eq!(m.sessions().len(), 1);
}

#[test]
fn finalize_saturates_when_the_end_precedes_the_start() {
    let mut s = Session::new("t".into(), "p".into(), "a".into(), 5_000, false);
    assert_eq!(s.ended_at, 0);
    assert_eq!(s.duration_ms, 0);
    s.finalize(2_000);
    assert_eq!(s.ended_at, 2_000);
    assert_eq!(s.duration_ms, 0);
    s.finalize(9_000);
    assert_eq!(s.duration_ms, 4_000);
}

#[test]
fn now_millis_is_after_2020() {
    assert!(now_millis() > 1_577_836_800_000);
}

#[test]
fn clock_mapping_truncates_and_defaults_to_zero() {
    assert_eq!(millis_or_zero(None), 0);
    assert_eq!(millis_or_zero(Some(1_700_000_000_123)), 1_700_000_000_123);
    assert_eq!(millis_or_zero(Some((1u128 << 64) + 9)), 9);
}

#[test]
fn history_stays_in_time_order_under_increasing_instants() {
    let mut m = Monitor::new(60_000);
    m.tick("a".into(), "a.exe".into(), "A".into(), 1_000);
    m.tick("b".into(), "b.exe".into(), "B".into(), 2_000);
    m.set_activity(ActivityState::Locked, 3_000);
    m.tick("c".into(), "c.exe".into(), "C".into(), 4_000);
    m.tick("c2".into(), "c.exe".into(), "C".into(), 5_000);
    m.close_active(6_000);
    m.tick("d".into(), "d.exe".into(), "D".into(), 7_000);
    let h = m.sessions();
    for s in h {
        assert!(s.started_at <= s.ended_at);
    }
    for w in h.windows(2) {
        assert!(w[0].ended_at <= w[1].started_at);
    }
    assert!(h.last().unwrap().ended_at <= m.active_session().unwrap().started_at);
}
