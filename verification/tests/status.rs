use codex_status::status::{Activity, Event, Field, Percent, Quality, Session, Snapshot, Usage};

fn session(root: &str) -> Session {
    Session::new(format!("{root}:one"), "/work/project".into(), "project".into())
}

fn start(at: i64, turn: &str) -> Event {
    Event::TurnStarted { at, turn: turn.into() }
}

fn end(at: i64, turn: &str, activity: Activity) -> Event {
    Event::TurnEnded { at, turn: turn.into(), activity, duration_ms: None }
}

fn pct(value: f64) -> Percent {
    Percent::from_bits(value.to_bits()).unwrap()
}

#[test]
fn old_and_duplicate_events_do_not_reopen_finished_turns() {
    let mut state = session("/first");
    state.apply(start(1, "a"));
    state.apply(end(2, "a", Activity::Completed));
    state.apply(start(1, "a"));
    assert_eq!(state.activity.value, Some(Activity::Completed));
    state.apply(start(3, "b"));
    state.apply(end(4, "a", Activity::Completed));
    assert_eq!(state.activity.value, Some(Activity::Running));
    assert_ne!(state.id, session("/second").id);
}

#[test]
fn cumulative_usage_is_replaced_and_is_not_context_occupancy() {
    let mut state = session("/root");
    let event = Event::Usage {
        at: 1,
        total: Some(Usage { input: Some(100), cached_input: Some(80), output: Some(20), total: Some(120) }),
        last: None,
        context_limit: Some(1000),
    };
    state.apply(event.clone());
    state.apply(event);
    assert_eq!(state.usage.value.unwrap().total, Some(120));
    assert_eq!(state.context_used.quality, Quality::Unsupported);
}

#[test]
fn waiting_requires_a_current_turn_and_terminal_events_are_explicit() {
    let mut state = session("/root");
    state.apply(start(1, "current"));
    state.apply(Event::Waiting { at: 2, turn: Some("older".into()), activity: Activity::WaitingInput });
    assert_eq!(state.activity.value, Some(Activity::Running));
    state.apply(Event::Waiting { at: 3, turn: Some("current".into()), activity: Activity::WaitingApproval });
    assert_eq!(state.activity.value, Some(Activity::WaitingApproval));
    state.apply(end(4, "current", Activity::Failed));
    assert_eq!(state.activity.value, Some(Activity::Failed));
    state.apply(Event::Waiting { at: 5, turn: Some("current".into()), activity: Activity::WaitingInput });
    assert_eq!(state.activity.value, Some(Activity::Failed));
}

#[test]
fn a_field_keeps_a_newer_observation() {
    let mut field: Field<u64> = Field::absent("local", Quality::Unavailable);
    assert_eq!(field.value, None);
    assert_eq!(field.quality, Quality::Unavailable);
    field.set(5, 10);
    assert_eq!((field.value, field.observed_at, field.quality), (Some(5), Some(10), Quality::Fresh));
    field.set(6, 9);
    assert_eq!((field.value, field.observed_at), (Some(5), Some(10)));
    field.set(7, 10);
    assert_eq!((field.value, field.observed_at), (Some(7), Some(10)));
}

#[test]
fn latest_time_never_goes_back() {
    let mut state = session("/root");
    state.apply(start(5, "a"));
    state.apply(Event::Context { at: 3, model: Some("m".into()), effort: None });
    assert_eq!(state.latest_at, 5);
    assert_eq!(state.model.value.as_deref(), Some("m"));
}

#[test]
fn approval_requests_wait_and_their_answers_resume() {
    let mut state = session("/root");
    state.apply(start(1, "turn"));
    state.apply(Event::ApprovalRequested { at: 2, request: "call".into() });
    assert_eq!(state.activity.value, Some(Activity::WaitingApproval));
    assert_eq!(state.approval.as_deref(), Some("call"));
    state.apply(Event::ApprovalResolved { at: 3, request: "other".into() });
    assert_eq!(state.activity.value, Some(Activity::WaitingApproval));
    state.apply(Event::ApprovalResolved { at: 4, request: "call".into() });
    assert_eq!(state.activity.value, Some(Activity::Running));
    assert_eq!(state.approval, None);
}

#[test]
fn an_approval_request_after_the_turn_finished_is_ignored() {
    let mut state = session("/root");
    state.apply(start(1, "turn"));
    state.apply(end(2, "turn", Activity::Completed));
    state.apply(Event::ApprovalRequested { at: 3, request: "late".into() });
    assert_eq!(state.activity.value, Some(Activity::Completed));
    assert_eq!(state.approval, None);
}

#[test]
fn a_zero_context_limit_is_ignored() {
    let mut state = session("/root");
    state.apply(Event::Usage { at: 1, total: None, last: None, context_limit: Some(0) });
    assert_eq!(state.context_limit.value, None);
    state.apply(Event::Usage { at: 2, total: None, last: None, context_limit: Some(4096) });
    assert_eq!(state.context_limit.value, Some(4096));
}

#[test]
fn percent_keeps_shares_from_zero_to_a_hundred() {
    assert!(Percent::from_bits(100.5f64.to_bits()).is_none());
    assert!(Percent::from_bits((-1.0f64).to_bits()).is_none());
    assert_eq!(Percent::from_bits((-0.0f64).to_bits()).unwrap().to_bits(), 0.0f64.to_bits());
    assert_eq!(f64::from_bits(pct(25.0).to_bits()), 25.0);
}

#[test]
fn percent_rounds_to_the_nearest_whole_share_with_ties_to_even() {
    assert_eq!(pct(24.4).nearest(), 24);
    assert_eq!(pct(24.5).nearest(), 24);
    assert_eq!(pct(25.5).nearest(), 26);
    assert_eq!(pct(99.9).nearest(), 100);
    assert_eq!(pct(0.0).nearest(), 0);
    assert_eq!(pct(0.4).nearest(), 0);
}

#[test]
fn percent_compares_with_whole_thresholds() {
    assert!(pct(10.0).at_most(10));
    assert!(pct(9.99).at_most(10));
    assert!(!pct(10.01).at_most(10));
    assert!(pct(0.0).at_most(0));
    assert!(!pct(100.0).at_most(99));
}

#[test]
fn a_new_snapshot_is_connecting_with_an_unknown_account() {
    let snapshot = Snapshot::default();
    assert_eq!(snapshot.connection, "connecting");
    assert_eq!(snapshot.account, "unknown");
    assert_eq!(snapshot.revision, 0);
    assert!(snapshot.sessions.is_empty() && snapshot.quotas.is_empty());
}
