use codex_status::cursor::Cursor;
use codex_status::json::{Json, JsonNumber};
use codex_status::local::{after_chunk, Local, LogState, ReadEnd, MAX_CHUNKS};
use codex_status::records::{call_argument_offsets, event, event_at, session, session_in, Record};
use codex_status::status::{Activity, Event, Percent};
use serde::Deserialize;

fn convert(value: &serde_json::Value) -> Json {
    match value {
        serde_json::Value::Null => Json::Null,
        serde_json::Value::Bool(b) => Json::Bool(*b),
        serde_json::Value::Number(n) => {
            let share_left = n
                .as_f64()
                .filter(|x| x.is_finite() && (0.0..=100.0).contains(x))
                .and_then(|x| Percent::from_bits((100.0 - x).to_bits()));
            Json::Number(JsonNumber { unsigned: n.as_u64(), signed: n.as_i64(), share_left })
        }
        serde_json::Value::String(s) => Json::Str(s.clone()),
        serde_json::Value::Array(items) => Json::Array(items.iter().map(convert).collect()),
        serde_json::Value::Object(map) => Json::Object(map.iter().map(|(k, v)| (k.clone(), convert(v))).collect()),
    }
}

fn documents(value: &serde_json::Value) -> Vec<Json> {
    let Some(source) = value.as_str() else {
        return Vec::new();
    };
    let mut found = Vec::new();
    if let Ok(whole) = serde_json::from_str::<serde_json::Value>(source) {
        found.push(convert(&whole));
    }
    for offset in call_argument_offsets(source) {
        let mut deserializer = serde_json::Deserializer::from_str(&source[offset..]);
        if let Ok(arguments) = serde_json::Value::deserialize(&mut deserializer) {
            found.push(convert(&arguments));
        }
    }
    found
}

fn record(text: &str) -> Record {
    let value: serde_json::Value = serde_json::from_str(text).unwrap();
    Record {
        row: convert(&value),
        input_documents: documents(&value["payload"]["input"]),
        argument_documents: documents(&value["payload"]["arguments"]),
    }
}

fn pct(value: f64) -> Percent {
    Percent::from_bits(value.to_bits()).unwrap()
}

#[test]
fn session_metadata_has_no_version_gate() {
    let row = record(r#"{"type":"session_meta","payload":{"id":"id","cwd":"/work"}}"#);
    let parsed = session("/data", &row.row).expect("session metadata should be accepted");
    assert_eq!(parsed.path, "/work");
}

#[test]
fn command_approval_calls_and_outputs_become_session_events() {
    let approval = record(
        r#"{"timestamp":"2026-09-05T00:00:02Z","type":"response_item","payload":{"type":"custom_tool_call","name":"exec","call_id":"approval","input":"const result = await tools.exec_command({\"cmd\":\"build\",\"sandbox_permissions\":\"require_escalated\"});"}}"#,
    );
    assert_eq!(
        event(&approval),
        Some(Event::ApprovalRequested { at: 1_788_566_402_000, request: "approval".into() })
    );

    let legacy = record(
        r#"{"timestamp":"2026-09-05T00:00:03Z","type":"response_item","payload":{"type":"function_call","name":"exec_command","call_id":"legacy","arguments":"{\"cmd\":\"build\",\"sandbox_permissions\":\"require_escalated\"}"}}"#,
    );
    assert!(matches!(
        event(&legacy),
        Some(Event::ApprovalRequested { request, .. }) if request == "legacy"
    ));

    let resolved = record(
        r#"{"timestamp":"2026-09-05T00:00:04Z","type":"response_item","payload":{"type":"custom_tool_call_output","call_id":"approval"}}"#,
    );
    assert!(matches!(
        event(&resolved),
        Some(Event::ApprovalResolved { request, .. }) if request == "approval"
    ));
}

#[test]
fn command_text_that_mentions_escalation_is_not_an_approval_request() {
    let row = record(
        r#"{"timestamp":"2026-09-05T00:00:02Z","type":"response_item","payload":{"type":"custom_tool_call","name":"exec","call_id":"search","input":"const result = await tools.exec_command({\"cmd\":\"rg require_escalated .\"});"}}"#,
    );
    assert_eq!(event(&row), None);
}

#[test]
fn an_escalated_payload_field_asks_for_approval_directly() {
    let row = record(
        r#"{"timestamp":"2026-09-05T00:00:02Z","type":"response_item","payload":{"type":"function_call","name":"exec","call_id":"direct","arguments":{"sandbox_permissions":"require_escalated"}}}"#,
    );
    assert_eq!(
        event(&row),
        Some(Event::ApprovalRequested { at: 1_788_566_402_000, request: "direct".into() })
    );
    let other_tool = record(
        r#"{"timestamp":"2026-09-05T00:00:02Z","type":"response_item","payload":{"type":"function_call","name":"shell","call_id":"x","arguments":"{\"sandbox_permissions\":\"require_escalated\"}"}}"#,
    );
    assert_eq!(event(&other_tool), None);
}

#[test]
fn call_offsets_point_just_after_each_command_call() {
    let source = "a tools.exec_command(1) b tools.exec_command(2)";
    assert_eq!(call_argument_offsets(source), vec![21, 45]);
    assert!(call_argument_offsets("nothing here").is_empty());
}

#[test]
fn turn_records_become_turn_events() {
    let started = record(r#"{"timestamp":"2026-09-05T00:00:01Z","type":"event_msg","payload":{"type":"task_started","turn_id":"turn"}}"#);
    assert_eq!(event(&started), Some(Event::TurnStarted { at: 1_788_566_401_000, turn: "turn".into() }));
    let aborted = record(r#"{"timestamp":"2026-09-05T00:00:02Z","type":"event_msg","payload":{"type":"turn_aborted","turn_id":"turn","duration_ms":5}}"#);
    assert_eq!(
        event(&aborted),
        Some(Event::TurnEnded { at: 1_788_566_402_000, turn: "turn".into(), activity: Activity::Interrupted, duration_ms: Some(5) })
    );
    let untimed = record(r#"{"type":"event_msg","payload":{"type":"task_started","turn_id":"turn"}}"#);
    assert_eq!(event(&untimed), None);
    let context = record(r#"{"timestamp":"2026-09-05T00:00:03+01:00","type":"turn_context","payload":{"model":"gpt","effort":"high"}}"#);
    assert_eq!(
        event(&context),
        Some(Event::Context { at: 1_788_562_803_000, model: Some("gpt".into()), effort: Some("high".into()) })
    );
}

fn read(cursor: &mut Cursor, identity: &str, content: &[u8]) -> (Vec<serde_json::Value>, bool, bool) {
    let known = cursor.prefix_len().min(content.len());
    let head = content[..known].to_vec();
    let len = content.len() as u64;
    let reset = cursor.begin(identity.to_owned(), len, None, &head);
    if cursor.needs_prefix(len) {
        cursor.set_prefix(content[..content.len().min(256)].to_vec());
    }
    let start = cursor.offset() as usize;
    let end = content.len().min(start + 256 * 1024);
    let lines = cursor.feed(&content[start..end]);
    let rows = lines.iter().filter_map(|line| serde_json::from_slice(line).ok()).collect();
    (rows, reset, cursor.offset() < len)
}

#[test]
fn cursor_retains_partial_utf8_and_resets_on_replacement() {
    let mut file: Vec<u8> = b"{\"a\":".to_vec();
    let mut cursor = Cursor::default();
    assert!(read(&mut cursor, "1:1", &file).0.is_empty());
    file.extend_from_slice(b"1}\nbroken\n{}\n");
    assert_eq!(read(&mut cursor, "1:1", &file).0.len(), 2);
    assert!(read(&mut cursor, "1:1", &file).0.is_empty());
    file = b"{}\n".to_vec();
    let (rows, reset, _) = read(&mut cursor, "1:1", &file);
    assert!(reset);
    assert_eq!(rows.len(), 1);
    file = b"{\"b\":2}\n".to_vec();
    assert!(read(&mut cursor, "1:2", &file).1);
}

#[test]
fn a_line_longer_than_the_limit_is_skipped_to_its_end() {
    let mut cursor = Cursor::default();
    let mut content = vec![b'a'; 1024 * 1024 + 10];
    content.push(b'\n');
    content.extend_from_slice(b"{}\n");
    let mut lines = Vec::new();
    for piece in content.chunks(256 * 1024) {
        lines.extend(cursor.feed(piece));
    }
    assert_eq!(lines, vec![b"{}".to_vec()]);
}

#[test]
fn split_reads_give_the_lines_of_one_read() {
    let mut whole = Cursor::default();
    let mut split = Cursor::default();
    let content = b"{\"x\":1}\n{\"y\":2}\n{\"z\"";
    let all = whole.feed(content);
    let mut parts = split.feed(&content[..5]);
    parts.extend(split.feed(&content[5..12]));
    parts.extend(split.feed(&content[12..]));
    assert_eq!(all, parts);
    assert_eq!(all.len(), 2);
}

fn take_in(local: &mut Local, path: &str, root: &str, rows: &[&str]) {
    for row in rows {
        local.record(path, root, &record(row));
    }
}

#[test]
fn adapter_separates_roots_and_ignores_unverified_statuses() {
    let mut local = Local::new();
    let unknown = r#"{"timestamp":"2026-09-05T00:00:01Z","type":"event_msg","payload":{"type":"unverified_status","status":"failed"}}"#;
    take_in(
        &mut local,
        "/tmp/first",
        "/data/first",
        &[r#"{"type":"session_meta","payload":{"id":"same","cwd":"/work/one","instructions":"private"}}"#, unknown],
    );
    take_in(
        &mut local,
        "/tmp/second",
        "/data/second",
        &[r#"{"type":"session_meta","payload":{"id":"same","cwd":"/work/two","instructions":"private"}}"#],
    );
    let sessions = local.snapshot(&Vec::new());
    assert_eq!(sessions.len(), 2);
    assert_ne!(sessions[0].id, sessions[1].id);
    assert!(sessions.iter().all(|session| session.activity.value.is_none()));
    assert!(!format!("{sessions:?}").contains("private"));
}

#[test]
fn snapshot_excludes_missing_local_working_directories() {
    let mut local = Local::new();
    take_in(&mut local, "/r/sessions/available.jsonl", "/r", &[r#"{"type":"session_meta","payload":{"id":"available","cwd":"/r/available"}}"#]);
    take_in(&mut local, "/r/sessions/missing.jsonl", "/r", &[r#"{"type":"session_meta","payload":{"id":"missing","cwd":"/r/missing"}}"#]);
    let missing = vec!["/r/missing".to_owned()];
    assert_eq!(local.snapshot(&missing).len(), 1);
    assert_eq!(local.snapshot(&missing)[0].path, "/r/available");
    let both = vec!["/r/missing".to_owned(), "/r/available".to_owned()];
    assert!(local.snapshot(&both).is_empty());
}

#[test]
fn adapter_keeps_latest_rate_limits_within_the_selected_root() {
    let meta = r#"{"type":"session_meta","payload":{"id":"id","cwd":"/work"}}"#;
    let current = r#"{"timestamp":"2026-09-05T00:00:02Z","type":"event_msg","payload":{"type":"token_count","rate_limits":{"limit_id":"codex","limit_name":null,"primary":{"used_percent":75,"window_minutes":300,"resets_at":200},"secondary":null,"credits":{"balance":"4","unlimited":false}}}}"#;
    let old = r#"{"timestamp":"2026-09-05T00:00:01Z","type":"event_msg","payload":{"type":"token_count","rate_limits":{"limit_id":"codex","primary":{"used_percent":5,"window_minutes":60,"resets_at":100}}}}"#;
    let other = r#"{"timestamp":"2026-09-05T00:00:03Z","type":"event_msg","payload":{"type":"token_count","rate_limits":{"limit_id":"codex","primary":{"used_percent":10,"window_minutes":30,"resets_at":300}}}}"#;
    let mut local = Local::new();
    take_in(&mut local, "/tmp/first", "/data/first", &[meta, current, old]);
    take_in(&mut local, "/tmp/second", "/data/second", &[meta, other]);
    let (quotas, observed_at) = local.quotas(Some("/data/first"));

    assert_eq!(observed_at, Some(1_788_566_402_000));
    assert_eq!(quotas.len(), 1);
    assert_eq!(quotas[0].name, "codex");
    assert_eq!(quotas[0].windows.len(), 1);
    assert_eq!(quotas[0].windows[0].remaining.value, Some(pct(25.0)));
    assert_eq!(quotas[0].windows[0].remaining.source, "local");
    assert_eq!(quotas[0].windows[0].minutes, Some(300));
    assert_eq!(quotas[0].windows[0].resets_at, Some(200_000));
    assert_eq!(quotas[0].credit_balance.as_deref(), Some("4"));
    assert_eq!(quotas[0].unlimited_credits, Some(false));
}

#[test]
fn a_line_split_across_reads_is_taken_in_once_complete() {
    let meta = r#"{"type":"session_meta","payload":{"id":"id","cwd":"/d/work"}}"#;
    let started = r#"{"timestamp":"2026-09-05T00:00:01Z","type":"event_msg","payload":{"type":"task_started","turn_id":"turn"}}"#;
    let completed = r#"{"timestamp":"2026-09-05T00:00:02Z","type":"event_msg","payload":{"type":"task_complete","turn_id":"turn"}}"#;
    let mut file = format!("{meta}\n{started}\n").into_bytes();
    let mut local = Local::new();
    let path = "/d/sessions/record";
    let mut cursor = local.take_cursor(path).unwrap();
    let update = |local: &mut Local, cursor: &mut Cursor, file: &[u8]| {
        let (rows, _, _) = read(cursor, "1:1", file);
        for row in rows {
            local.record(path, "/d", &record(&row.to_string()));
        }
    };
    update(&mut local, &mut cursor, &file);
    let encoded = completed.as_bytes();
    let split = encoded.len() / 2;
    file.extend_from_slice(&encoded[..split]);
    update(&mut local, &mut cursor, &file);
    assert_eq!(local.snapshot(&Vec::new())[0].activity.value, Some(Activity::Running));
    file.extend_from_slice(&encoded[split..]);
    file.extend_from_slice(b"\n");
    update(&mut local, &mut cursor, &file);
    local.put_cursor(path.to_owned(), cursor);
    assert_eq!(local.snapshot(&Vec::new())[0].activity.value, Some(Activity::Completed));
}

#[test]
fn a_log_that_starts_over_drops_its_session_and_readings() {
    let meta = r#"{"type":"session_meta","payload":{"id":"id","cwd":"/work"}}"#;
    let reading = r#"{"timestamp":"2026-09-05T00:00:02Z","type":"event_msg","payload":{"type":"token_count","rate_limits":{"limit_id":"codex","primary":{"used_percent":40}}}}"#;
    let mut local = Local::new();
    take_in(&mut local, "/a", "/root", &[meta, reading]);
    take_in(&mut local, "/b", "/root", &[meta]);
    assert_eq!(local.quotas(Some("/root")).0.len(), 1);
    local.drop_records("/a");
    assert_eq!(local.snapshot(&Vec::new()).len(), 1);
    assert!(local.quotas(Some("/root")).0.is_empty());
    assert_eq!(local.quotas(None), (Vec::new(), None));
}

#[test]
fn cursors_are_limited_and_logs_are_forgotten() {
    let mut local = Local::new();
    for i in 0..500 {
        let path = format!("/log/{i}");
        let cursor = local.take_cursor(&path).unwrap();
        local.put_cursor(path, cursor);
    }
    assert!(local.take_cursor("/log/new").is_none());
    assert_eq!(local.error().as_deref(), Some("source-limit"));
    let known = local.take_cursor("/log/7");
    assert!(known.is_some());
    local.put_cursor("/log/7".to_owned(), known.unwrap());
    local.mark_read("/log/7".to_owned(), (10, Some(5)));
    assert!(local.unchanged("/log/7", (10, Some(5))));
    assert!(!local.unchanged("/log/7", (11, Some(5))));
    local.forget("/log/7");
    assert!(!local.unchanged("/log/7", (10, Some(5))));
}

#[test]
fn sessions_are_shown_newest_first_then_by_id() {
    let mut local = Local::new();
    let meta = |id: &str| format!(r#"{{"type":"session_meta","payload":{{"id":"{id}","cwd":"/w"}}}}"#);
    let started = |second: u32| {
        format!(r#"{{"timestamp":"2026-09-05T00:00:0{second}Z","type":"event_msg","payload":{{"type":"task_started","turn_id":"t"}}}}"#)
    };
    take_in(&mut local, "/1", "/r", &[&meta("b"), &started(1)]);
    take_in(&mut local, "/2", "/r", &[&meta("c"), &started(2)]);
    take_in(&mut local, "/3", "/r", &[&meta("a"), &started(1)]);
    let order: Vec<String> = local.snapshot(&Vec::new()).iter().map(|s| s.id.rsplit(':').next().unwrap().to_owned()).collect();
    assert_eq!(order, vec!["c", "a", "b"]);
}

#[test]
fn a_session_is_named_after_its_working_directory() {
    let row = record(r#"{"type":"session_meta","payload":{"id":"abc","cwd":"/work/project"}}"#);
    let parsed = session("/data", &row.row).unwrap();
    assert_eq!(parsed.project, "project");
    assert!(parsed.id.ends_with(":abc"));
    assert_eq!(parsed.id.len(), 24 + 1 + 3);
    let work = record(r#"{"type":"session_meta","payload":{"id":"id","cwd":"/work/"}}"#);
    assert_eq!(session("/data", &work.row).unwrap().project, "work");
    let bare = record(r#"{"type":"session_meta","payload":{"id":"abc"}}"#);
    let parsed = session("/data", &bare.row).unwrap();
    assert_eq!(parsed.path, "");
    assert_eq!(parsed.project, "");
    let other = record(r#"{"type":"turn_context","payload":{"id":"abc"}}"#);
    assert!(session("/data", &other.row).is_none());
}

#[test]
fn events_and_sessions_can_be_read_with_a_given_time_and_root_identity() {
    let started = record(r#"{"type":"event_msg","payload":{"type":"task_started","turn_id":"turn"}}"#);
    assert_eq!(event(&started), None);
    assert_eq!(event_at(&started, 5), Some(Event::TurnStarted { at: 5, turn: "turn".into() }));
    let meta = record(r#"{"type":"session_meta","payload":{"id":"abc","cwd":"/w"}}"#);
    assert_eq!(session_in("root", &meta.row).unwrap().id, "root:abc");
}

#[test]
fn reading_a_log_opens_takes_in_and_closes() {
    let mut local = Local::new();
    let meta = record(r#"{"type":"session_meta","payload":{"id":"id","cwd":"/w"}}"#);
    let started = record(r#"{"timestamp":"2026-09-05T00:00:01Z","type":"event_msg","payload":{"type":"task_started","turn_id":"t"}}"#);
    let cursor = local.start_reading("/log", LogState::File((10, Some(1)))).unwrap();
    local.take_in("/log", "/root", &vec![meta, started], false);
    local.finish_reading("/log".to_owned(), cursor, ReadEnd::Ended((10, Some(1))));
    assert_eq!(local.snapshot(&Vec::new())[0].activity.value, Some(Activity::Running));
    assert!(local.start_reading("/log", LogState::File((10, Some(1)))).is_none());
    assert!(local.start_reading("/log", LogState::Other).is_none());
    let cursor = local.start_reading("/log", LogState::File((20, Some(2)))).unwrap();
    local.take_in("/log", "/root", &Vec::new(), true);
    assert!(local.snapshot(&Vec::new()).is_empty());
    local.finish_reading("/log".to_owned(), cursor, ReadEnd::Failed);
    assert_eq!(local.error().as_deref(), Some("record-unreadable"));
    let cursor = local.start_reading("/log", LogState::File((20, Some(2)))).unwrap();
    local.finish_reading("/log".to_owned(), cursor, ReadEnd::Limited);
    assert_eq!(local.error().as_deref(), Some("record-limit"));
    assert!(local.start_reading("/log", LogState::Gone).is_none());
    assert!(local.followed().is_empty());
}

#[test]
fn a_pass_over_a_log_ends_at_its_end_an_error_or_the_chunk_limit() {
    let signature = (42, Some(7));
    assert!(matches!(after_chunk(false, true, 1, signature), Some(ReadEnd::Failed)));
    assert!(matches!(after_chunk(true, false, 1, signature), Some(ReadEnd::Ended((42, Some(7))))));
    assert!(after_chunk(true, true, 1, signature).is_none());
    assert!(after_chunk(true, true, MAX_CHUNKS - 1, signature).is_none());
    assert!(matches!(after_chunk(true, true, MAX_CHUNKS, signature), Some(ReadEnd::Limited)));
    assert_eq!(MAX_CHUNKS, 128);
}
