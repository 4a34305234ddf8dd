use codex_status::executable::{candidate_names, combine_paths, marked_path, split_extensions};
use codex_status::json::Json;
use codex_status::settings::{source_change, Settings};
use codex_status::sources::{
    after_account,
    account_mode, finish_change, hex_prefix, identity, local_quota_advanced, quota_refresh_throttle, quota_source, retry_interval, QueryWake,
    QuotaSource, QueryState, RuntimeState, WatchState,
};
use codex_status::status::{Field, Percent, Quality, Quota, QuotaWindow, Session, Snapshot};
use std::time::Duration;

fn pct(value: f64) -> Percent {
    Percent::from_bits(value.to_bits()).unwrap()
}

fn quota(source: &str, observed_at: i64, remaining: f64) -> Quota {
    let mut field = Field::absent(source, Quality::Unavailable);
    field.set(pct(remaining), observed_at);
    Quota {
        id: "codex".into(),
        name: "Codex".into(),
        windows: vec![QuotaWindow { remaining: field, minutes: Some(300), resets_at: None }],
        credit_balance: None,
        unlimited_credits: None,
    }
}

#[test]
fn shell_path_marker_ignores_startup_output() {
    assert_eq!(
        marked_path(b"startup output\n\0/system:/user\0trailing\n"),
        Some(b"/system:/user".as_slice())
    );
    assert_eq!(marked_path(b"unmarked output"), None);
}

#[test]
fn newer_local_quota_events_wake_the_authoritative_rpc_source_once() {
    let mut observed_at = None;
    assert!(!local_quota_advanced(QuotaSource::Rpc, None, &mut observed_at));
    assert!(local_quota_advanced(QuotaSource::Rpc, Some(100), &mut observed_at));
    assert!(!local_quota_advanced(QuotaSource::Rpc, Some(100), &mut observed_at));
    assert!(!local_quota_advanced(QuotaSource::Local, Some(200), &mut observed_at));
    assert!(!local_quota_advanced(QuotaSource::Rpc, Some(200), &mut observed_at));
    assert!(local_quota_advanced(QuotaSource::Rpc, Some(300), &mut observed_at));
}

#[test]
fn manual_refresh_bypasses_the_automatic_quota_throttle() {
    let recent = Duration::from_millis(100);
    assert_eq!(quota_refresh_throttle(QueryWake::Manual, recent.as_nanos()), Duration::ZERO.as_nanos());
    assert_eq!(quota_refresh_throttle(QueryWake::Scheduled, recent.as_nanos()), Duration::ZERO.as_nanos());
    assert_eq!(
        quota_refresh_throttle(QueryWake::Automatic, recent.as_nanos()),
        Duration::from_millis(2900).as_nanos()
    );
}

#[test]
fn an_old_automatic_wake_is_not_throttled() {
    assert_eq!(quota_refresh_throttle(QueryWake::Automatic, Duration::from_secs(5).as_nanos()), 0);
}

#[test]
fn each_account_mode_has_one_authoritative_quota_owner() {
    let mut state = RuntimeState::new(Snapshot::default());
    let rpc_owner = state.observe_account(0, "chatgpt", "account-a".into(), None, 1).unwrap();
    assert!(state.observe_rpc(&rpc_owner, vec![quota("appServer", 100, 80.0)], 100));

    assert!(state.observe_local(0, Vec::new(), None, vec![quota("local", 200, 10.0)], Some(200)));
    assert_eq!(state.snapshot.quotas[0].windows[0].remaining.source, "appServer");
    assert_eq!(state.snapshot.quotas[0].windows[0].remaining.value, Some(pct(80.0)));

    state.observe_account(0, "apiKey", "account-b".into(), None, 201).unwrap();
    assert!(state.snapshot.quotas.is_empty());
    assert!(!state.observe_rpc(&rpc_owner, vec![quota("appServer", 202, 70.0)], 202));
    assert!(state.observe_local(0, Vec::new(), None, vec![quota("local", 50, 25.0)], Some(50)));
    assert_eq!(state.snapshot.quotas[0].windows[0].remaining.source, "local");

    state.observe_account(0, "signedOut", "signed-out".into(), None, 203).unwrap();
    assert!(state.snapshot.quotas.is_empty());
}

#[test]
fn account_and_configuration_changes_reject_stale_quota_results() {
    let mut state = RuntimeState::new(Snapshot::default());
    let old_owner = state.observe_account(0, "chatgpt", "account-a".into(), None, 1).unwrap();
    assert!(state.observe_rpc(&old_owner, vec![quota("appServer", 2, 90.0)], 2));

    let new_owner = state.observe_account(0, "chatgpt", "account-b".into(), None, 3).unwrap();
    assert!(state.snapshot.quotas.is_empty());
    assert!(!state.observe_rpc(&old_owner, vec![quota("appServer", 4, 80.0)], 4));
    assert!(state.observe_rpc(&new_owner, vec![quota("appServer", 5, 70.0)], 5));

    state.reset_sources(false);
    assert_eq!(state.snapshot.account, "unknown");
    assert_eq!(state.snapshot.connection, "connecting");
    assert!(state.snapshot.quotas.is_empty());
    assert!(!state.observe_rpc(&new_owner, vec![quota("appServer", 6, 60.0)], 6));
    assert!(!state.observe_local(0, Vec::new(), None, vec![quota("local", 7, 50.0)], Some(7)));
}

#[test]
fn root_generation_change_clears_sessions_and_rejects_old_scan() {
    let mut state = RuntimeState::new(Snapshot::default());
    state.snapshot.sessions.push(Session::new("old".into(), "/old".into(), "old".into()));
    state.reset_sources(true);
    assert!(state.snapshot.sessions.is_empty());

    assert!(!state.observe_local(
        0,
        vec![Session::new("stale".into(), "/stale".into(), "stale".into())],
        None,
        Vec::new(),
        None,
    ));
    assert!(state.snapshot.sessions.is_empty());
}

#[test]
fn account_modes_choose_a_quota_source() {
    assert_eq!(quota_source("chatgpt"), QuotaSource::Rpc);
    assert_eq!(quota_source("apiKey"), QuotaSource::Local);
    assert_eq!(quota_source("externalProvider"), QuotaSource::Local);
    assert_eq!(quota_source("signedOut"), QuotaSource::Off);
    assert_eq!(quota_source("unsupported"), QuotaSource::Off);

    let external = Json::Object(vec![
        ("account".to_owned(), Json::Null),
        ("requiresOpenaiAuth".to_owned(), Json::Bool(false)),
    ]);
    assert_eq!(account_mode(&external), "externalProvider");
}

#[test]
fn account_types_name_the_mode() {
    let account = |kind: Json| Json::Object(vec![("account".to_owned(), Json::Object(vec![("type".to_owned(), kind)]))]);
    assert_eq!(account_mode(&account(Json::Str("chatgpt".into()))), "chatgpt");
    assert_eq!(account_mode(&account(Json::Str("apiKey".into()))), "apiKey");
    assert_eq!(account_mode(&account(Json::Str("other".into()))), "unsupported");
    assert_eq!(account_mode(&Json::Null), "signedOut");
}

#[test]
fn an_account_without_its_own_quota_is_up_to_date_at_once() {
    let mut state = RuntimeState::new(Snapshot::default());
    state.observe_account(0, "signedOut", "x".into(), Some("p".into()), 42).unwrap();
    assert_eq!(state.snapshot.connection, "signedOut");
    assert_eq!(state.snapshot.updated_at, Some(42));
    assert_eq!(state.snapshot.provider.as_deref(), Some("p"));
    assert!(state.observe_account(1, "chatgpt", "x".into(), None, 43).is_none());
}

#[test]
fn a_failed_query_marks_quotas_stale_and_expired_windows_go_stale() {
    let mut state = RuntimeState::new(Snapshot::default());
    let owner = state.observe_account(0, "chatgpt", "a".into(), None, 1).unwrap();
    let mut expiring = quota("appServer", 5, 40.0);
    expiring.windows[0].resets_at = Some(1_000);
    assert!(state.observe_rpc(&owner, vec![expiring], 5));
    state.mark_expired(0, 999);
    assert_eq!(state.snapshot.quotas[0].windows[0].remaining.quality, Quality::Fresh);
    state.mark_expired(0, 1_000);
    assert_eq!(state.snapshot.quotas[0].windows[0].remaining.quality, Quality::Stale);

    let mut state = RuntimeState::new(Snapshot::default());
    let owner = state.observe_account(0, "chatgpt", "a".into(), None, 1).unwrap();
    assert!(state.observe_rpc(&owner, vec![quota("appServer", 5, 40.0)], 5));
    state.begin_query(0);
    assert!(state.snapshot.refreshing);
    state.mark_failed(1, "query-failed".into());
    assert_eq!(state.snapshot.connection, "connecting");
    state.mark_failed(0, "query-failed".into());
    assert_eq!(state.snapshot.connection, "offline");
    assert_eq!(state.snapshot.error.as_deref(), Some("query-failed"));
    assert_eq!(state.snapshot.quotas[0].windows[0].remaining.quality, Quality::Stale);
    assert_eq!(state.snapshot.quotas[0].windows[0].remaining.value, Some(pct(40.0)));
    state.end_query(0);
    assert!(!state.snapshot.refreshing);
}

#[test]
fn retries_back_off_and_wait_longer_when_hidden() {
    assert_eq!(retry_interval(0, false, 7), 60);
    assert_eq!(retry_interval(0, true, 7), 180);
    assert_eq!(retry_interval(1, false, 0), 10);
    assert_eq!(retry_interval(3, true, 5), 41);
    assert_eq!(retry_interval(6, false, 2), 302);
    assert_eq!(retry_interval(u32::MAX, false, 3), 303);
}

#[test]
fn identities_are_the_first_twelve_bytes_of_the_digest_in_hex() {
    assert_eq!(identity(""), "e3b0c44298fc1c149afbf4c8");
    assert_eq!(identity("abc"), "ba7816bf8f01cfea414140de");
}

#[test]
fn discovered_paths_keep_the_primary_order() {
    let paths = combine_paths(
        vec!["/discovered".into(), "/shared".into()],
        vec!["/inherited".into(), "/shared".into(), "/discovered".into()],
    );
    assert_eq!(paths, vec!["/discovered".to_owned(), "/shared".to_owned(), "/inherited".to_owned()]);
}

#[test]
fn executable_extensions_split_on_semicolons() {
    assert_eq!(split_extensions(".COM;.EXE;;.BAT"), vec![".COM".to_owned(), ".EXE".to_owned(), ".BAT".to_owned()]);
}

#[test]
fn a_new_root_or_executable_starts_the_sources_over() {
    let current = Settings::with_root("/a".into());
    assert_eq!(source_change(&current, &current.clone()), (false, false));
    let mut other = current.clone();
    other.executable = "codex-next".into();
    assert_eq!(source_change(&current, &other), (false, true));
    let moved = Settings::with_root("/b".into());
    assert_eq!(source_change(&current, &moved), (true, true));
    let mut themed = current.clone();
    themed.theme = "dark".into();
    assert_eq!(source_change(&current, &themed), (false, false));
}

#[test]
fn the_log_follower_notices_what_changed() {
    let mut watch = WatchState::new();
    let roots = vec!["/a".to_owned()];
    assert_eq!(watch.configure(&roots, 0, QuotaSource::Off), (true, true));
    assert_eq!(watch.configure(&roots, 0, QuotaSource::Off), (false, false));
    assert_eq!(watch.configure(&roots, 0, QuotaSource::Rpc), (false, true));
    assert!(watch.announce(Some(10)));
    assert!(!watch.announce(Some(10)));
    assert_eq!(watch.configure(&roots, 1, QuotaSource::Rpc), (false, true));
    assert!(watch.announce(Some(10)));
    assert_eq!(watch.configure(&vec!["/b".to_owned()], 1, QuotaSource::Rpc), (true, true));
}

#[test]
fn queries_back_off_and_wait_for_authentication() {
    let mut query = QueryState::new();
    assert!(query.configure(0, "codex", Some("/a")));
    assert!(!query.configure(0, "codex", Some("/a")));
    query.finish(Some("query-failed"));
    query.finish(Some("query-failed"));
    assert_eq!(query.interval(false, 0), 20);
    assert!(!query.is_waiting());
    query.finish(Some("auth-required"));
    assert!(query.is_waiting());
    query.resume();
    assert!(!query.is_waiting());
    query.finish(None);
    assert_eq!(query.interval(true, 0), 180);
    query.account_without_rpc("signedOut");
    assert!(query.is_waiting());
    assert!(query.configure(0, "codex", None));
    assert!(!query.is_waiting());
}

#[test]
fn a_change_advances_the_revision_once() {
    let previous = Snapshot::default();
    let mut state = previous.clone();
    assert!(!finish_change(&mut state, &previous));
    assert_eq!(state.revision, 0);
    state.connection = "connected".into();
    assert!(finish_change(&mut state, &previous));
    assert_eq!(state.revision, 1);
    let mut sessions = previous.clone();
    sessions.sessions.push(Session::new("a".into(), "/a".into(), "a".into()));
    assert!(!sessions.same_as(&previous));
    let mut quotas = previous.clone();
    quotas.quotas.push(quota("local", 1, 50.0));
    let mut other = quotas.clone();
    assert!(other.same_as(&quotas));
    other.quotas[0].windows[0].remaining.value = Some(pct(49.0));
    assert!(!other.same_as(&quotas));
}

#[test]
fn hex_prefixes_are_lower_case_pairs() {
    assert_eq!(hex_prefix(&[0x0f, 0xa0, 0x11], 2), "0fa0");
    assert_eq!(hex_prefix(&[0xff], 0), "");
}

#[test]
fn the_same_path_is_not_added_twice() {
    let paths = combine_paths(vec!["/a/".into()], vec!["/a".into(), "/b//c".into(), "/b/./c/".into(), "b/c".into()]);
    assert_eq!(paths, vec!["/a/".to_owned(), "/b//c".to_owned(), "b/c".to_owned()]);
}

#[test]
fn only_an_external_provider_reads_the_configuration() {
    let external = after_account("externalProvider");
    assert_eq!(external.source, QuotaSource::Local);
    assert!(external.reads_provider);
    assert!(!external.reads_limits);
    let chatgpt = after_account("chatgpt");
    assert_eq!(chatgpt.source, QuotaSource::Rpc);
    assert!(!chatgpt.reads_provider);
    assert!(chatgpt.reads_limits);
    let key = after_account("apiKey");
    assert!(!key.reads_provider && !key.reads_limits);
    let signed_out = after_account("signedOut");
    assert_eq!(signed_out.source, QuotaSource::Off);
    assert!(!signed_out.reads_provider && !signed_out.reads_limits);
}

#[test]
fn candidate_names_try_the_bare_name_first() {
    let extensions = vec![".EXE".to_owned(), ".CMD".to_owned()];
    assert_eq!(candidate_names("codex", false, &extensions), vec!["codex", "codex.EXE", "codex.CMD"]);
    assert_eq!(candidate_names("codex.exe", true, &extensions), vec!["codex.exe"]);
    assert_eq!(candidate_names("codex", false, &Vec::new()), vec!["codex"]);
}
