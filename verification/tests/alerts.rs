use codex_status::alerts::{AlertKind, Alerts};
use codex_status::status::{Activity, Event, Field, Percent, Quality, Quota, QuotaWindow, Session, Snapshot};

fn session() -> Session {
    Session::new("root:session".into(), "/work/project".into(), "project".into())
}

fn pct(value: f64) -> Percent {
    Percent::from_bits(value.to_bits()).unwrap()
}

fn quota(source: &str, remaining: f64) -> Quota {
    let mut field = Field::absent(source, Quality::Unavailable);
    field.set(pct(remaining), 1);
    Quota {
        id: "quota".into(),
        name: "Account".into(),
        windows: vec![QuotaWindow { remaining: field, minutes: Some(300), resets_at: Some(100) }],
        credit_balance: None,
        unlimited_credits: None,
    }
}

#[test]
fn historical_states_are_seeded_and_transitions_are_deduplicated() {
    let mut session = session();
    session.apply(Event::TurnStarted { at: 1, turn: "turn".into() });
    let mut snapshot = Snapshot { sessions: vec![session], ..Snapshot::default() };
    let mut tracker = Alerts::default();
    assert!(tracker.observe(&snapshot, 10).is_empty());
    snapshot.sessions[0].apply(Event::TurnEnded {
        at: 2,
        turn: "turn".into(),
        activity: Activity::Completed,
        duration_ms: None,
    });
    let alert = &tracker.observe(&snapshot, 10)[0];
    assert_eq!(alert.title, "Task completed");
    assert_eq!(alert.kind, AlertKind::Completion);
    assert!(tracker.observe(&snapshot, 10).is_empty());
}

#[test]
fn waiting_for_command_approval_emits_an_approval_alert_once() {
    let mut session = session();
    session.apply(Event::TurnStarted { at: 1, turn: "turn".into() });
    let mut snapshot = Snapshot { sessions: vec![session], ..Snapshot::default() };
    let mut tracker = Alerts::default();
    assert!(tracker.observe(&snapshot, 10).is_empty());

    snapshot.sessions[0].apply(Event::Waiting {
        at: 2,
        turn: Some("turn".into()),
        activity: Activity::WaitingApproval,
    });
    let alerts = tracker.observe(&snapshot, 10);
    assert_eq!(alerts.len(), 1);
    assert_eq!(alerts[0].title, "Approval needed");
    assert_eq!(alerts[0].kind, AlertKind::Approval);
    assert!(tracker.observe(&snapshot, 10).is_empty());
}

#[test]
fn low_quota_notifies_once_per_threshold_crossing() {
    let mut snapshot = Snapshot { quotas: vec![quota("appServer", 9.0)], ..Snapshot::default() };
    let mut tracker = Alerts::default();
    assert_eq!(tracker.observe(&snapshot, 10)[0].title, "Quota low");
    assert!(tracker.observe(&snapshot, 10).is_empty());
    snapshot.quotas[0].windows[0].remaining.value = Some(pct(20.0));
    assert!(tracker.observe(&snapshot, 10).is_empty());
    snapshot.quotas[0].windows[0].remaining.value = Some(pct(8.0));
    assert_eq!(tracker.observe(&snapshot, 10)[0].title, "Quota low");
    assert!(tracker.observe(&snapshot, 10).is_empty());
    snapshot.quotas[0].windows[0].resets_at = Some(200);
    assert!(tracker.observe(&snapshot, 10).is_empty());
}

#[test]
fn task_completion_does_not_repeat_an_active_low_quota_alert() {
    let mut session = session();
    session.apply(Event::TurnStarted { at: 1, turn: "turn".into() });
    let mut snapshot = Snapshot { sessions: vec![session], quotas: vec![quota("local", 9.0)], ..Snapshot::default() };
    let mut tracker = Alerts::default();
    assert_eq!(tracker.observe(&snapshot, 10)[0].kind, AlertKind::Quota);

    snapshot.sessions[0].apply(Event::TurnEnded {
        at: 2,
        turn: "turn".into(),
        activity: Activity::Completed,
        duration_ms: None,
    });
    snapshot.quotas[0].windows[0].resets_at = Some(200);

    let alerts = tracker.observe(&snapshot, 10);
    assert_eq!(alerts.len(), 1);
    assert_eq!(alerts[0].kind, AlertKind::Completion);
}

#[test]
fn new_low_quota_alert_takes_priority_over_simultaneous_task_completion() {
    let mut session = session();
    session.apply(Event::TurnStarted { at: 1, turn: "turn".into() });
    let mut snapshot = Snapshot { sessions: vec![session], quotas: vec![quota("local", 20.0)], ..Snapshot::default() };
    let mut tracker = Alerts::default();
    assert!(tracker.observe(&snapshot, 10).is_empty());

    snapshot.sessions[0].apply(Event::TurnEnded {
        at: 2,
        turn: "turn".into(),
        activity: Activity::Completed,
        duration_ms: None,
    });
    snapshot.quotas[0].windows[0].remaining.set(pct(9.0), 2);

    let alerts = tracker.observe(&snapshot, 10);
    assert_eq!(alerts.len(), 1);
    assert_eq!(alerts[0].kind, AlertKind::Quota);
}

#[test]
fn a_low_quota_alert_reports_the_rounded_share() {
    let snapshot = Snapshot { quotas: vec![quota("local", 7.5)], ..Snapshot::default() };
    let mut tracker = Alerts::default();
    let alerts = tracker.observe(&snapshot, 10);
    assert_eq!(alerts.len(), 1);
    assert_eq!(alerts[0].body, "Account: 8% remaining");
}

#[test]
fn a_stale_share_is_not_low() {
    let mut snapshot = Snapshot { quotas: vec![quota("local", 5.0)], ..Snapshot::default() };
    snapshot.quotas[0].windows[0].remaining.quality = Quality::Stale;
    let mut tracker = Alerts::default();
    assert!(tracker.observe(&snapshot, 10).is_empty());
}

#[test]
fn a_session_without_a_project_is_announced_as_session() {
    let mut session = Session::new("root:x".into(), "".into(), "".into());
    session.apply(Event::TurnStarted { at: 1, turn: "turn".into() });
    let mut snapshot = Snapshot { sessions: vec![session], ..Snapshot::default() };
    let mut tracker = Alerts::default();
    assert!(tracker.observe(&snapshot, 10).is_empty());
    snapshot.sessions[0].apply(Event::TurnEnded { at: 2, turn: "turn".into(), activity: Activity::Failed, duration_ms: None });
    let alerts = tracker.observe(&snapshot, 10);
    assert_eq!(alerts.len(), 1);
    assert_eq!(alerts[0].title, "Task failed");
    assert_eq!(alerts[0].body, "Session");
    assert_eq!(alerts[0].kind, AlertKind::Status);
}
