//! Reading the records that sessions write: session metadata, turn and
//! usage events, command approvals and quota readings.
use vstd::prelude::*;
use crate::json::{
    bool_in, bounded_text, found, i64_in, member, object_in, share_left_in, text, text_in, text_is,
    u64_in, Json,
};
use crate::sources::{hex_lower, identity, sha256};
use crate::status::{
    fresh_view,
    Activity, Event, EventView, Field, Percent, Quality, Quota, QuotaView, QuotaWindow, Session, Usage,
    WindowView,
};
use crate::text::{push_str, str_eq};
use crate::paths::{file_name, last_name, plain};
use vstd::string::StringSliceAdditionalSpecFns;

verus! {

/// The instant, in milliseconds since the Unix epoch, that an RFC 3339
/// timestamp denotes, if it is one.
pub uninterp spec fn rfc3339_millis(text: Seq<char>) -> Option<i64>;

/// `chrono::DateTime::parse_from_rfc3339` followed by `timestamp_millis`:
/// the claim is only that the result is a function of the text.
#[verifier::external_body]
fn parse_rfc3339_millis(text: &str) -> (millis: Option<i64>)
    ensures
        millis == rfc3339_millis(text@),
{
    match chrono::DateTime::parse_from_rfc3339(text) {
        Ok(time) => Some(time.timestamp_millis()),
        Err(_) => None,
    }
}

/// When a record was written.
pub open spec fn time_of(row: Json) -> Option<i64> {
    match row.at("timestamp"@).text_of() {
        Some(t) => rfc3339_millis(t),
        None => None,
    }
}

/// When a record was written.
pub fn at(row: &Json) -> (millis: Option<i64>)
    ensures
        millis == time_of(*row),
{
    match row.get("timestamp") {
        Some(Json::Str(t)) => parse_rfc3339_millis(t.as_str()),
        _ => None,
    }
}

/// The token counts of a usage object.
pub open spec fn usage_of(value: Json) -> Option<Usage> {
    if value.is_object() {
        Some(
            Usage {
                input: value.at("input_tokens"@).u64_of(),
                cached_input: value.at("cached_input_tokens"@).u64_of(),
                output: value.at("output_tokens"@).u64_of(),
                total: value.at("total_tokens"@).u64_of(),
            },
        )
    } else {
        None
    }
}

/// The token counts of a usage object.
pub fn usage(value: Option<&Json>) -> (u: Option<Usage>)
    ensures
        u == usage_of(found(value)),
{
    if !object_in(value) {
        return None;
    }
    Some(
        Usage {
            input: u64_in(member(value, "input_tokens")),
            cached_input: u64_in(member(value, "cached_input_tokens")),
            output: u64_in(member(value, "output_tokens")),
            total: u64_in(member(value, "total_tokens")),
        },
    )
}

/// A reset time given in seconds, in milliseconds when that fits.
pub open spec fn reset_millis(seconds: Option<i64>) -> Option<i64> {
    match seconds {
        Some(s) => if s * 1000 > i64::MAX || s * 1000 < i64::MIN {
            None
        } else {
            Some((s * 1000) as i64)
        },
        None => None,
    }
}

/// A quota window read from an object with the given keys: the share left
/// is 100 minus the used percentage when that lies in 0..=100, observed at
/// `at`; it is stale when the window reset at or before `at`.
pub open spec fn window_view(
    w: Json,
    used: Seq<char>,
    resets: Seq<char>,
    minutes: Seq<char>,
    source: Seq<char>,
    at: i64,
) -> WindowView {
    let share = w.at(used).share_left_of();
    let resets_at = reset_millis(w.at(resets).i64_of());
    WindowView {
        share,
        source,
        observed_at: if share is Some { Some(at) } else { None },
        quality: if share is None {
            Quality::Unavailable
        } else if resets_at is Some && resets_at.unwrap() <= at {
            Quality::Stale
        } else {
            Quality::Fresh
        },
        minutes: match w.at(minutes).u64_of() {
            Some(m) => if m > 0 { Some(m) } else { None },
            None => None,
        },
        resets_at,
    }
}

/// The windows of a quota object: its primary and then its secondary
/// window, each when it is an object.
pub open spec fn windows_view(
    value: Json,
    used: Seq<char>,
    resets: Seq<char>,
    minutes: Seq<char>,
    source: Seq<char>,
    at: i64,
) -> Seq<WindowView> {
    let p = value.at("primary"@);
    let s = value.at("secondary"@);
    (if p.is_object() { seq![window_view(p, used, resets, minutes, source, at)] } else { seq![] }) + (
    if s.is_object() {
        seq![window_view(s, used, resets, minutes, source, at)]
    } else {
        seq![]
    })
}

/// Reads one quota window, if the value is an object.
pub fn window(
    value: Option<&Json>,
    used: &str,
    resets: &str,
    minutes: &str,
    source: &str,
    at: i64,
) -> (w: Option<QuotaWindow>)
    ensures
        w is Some <==> found(value).is_object(),
        w is Some ==> w.unwrap()@ == window_view(found(value), used@, resets@, minutes@, source@, at),
{
    if !object_in(value) {
        return None;
    }
    let mut remaining: Field<Percent> = Field::absent(source, Quality::Unavailable);
    if let Some(left) = share_left_in(member(value, used)) {
        remaining.set(left, at);
    }
    let resets_at = match i64_in(member(value, resets)) {
        Some(seconds) => seconds.checked_mul(1000),
        None => None,
    };
    let expired = match resets_at {
        Some(reset) => reset <= at,
        None => false,
    };
    if expired && remaining.value.is_some() {
        remaining.quality = Quality::Stale;
    }
    let minutes = match u64_in(member(value, minutes)) {
        Some(m) => if m > 0 {
            Some(m)
        } else {
            None
        },
        None => None,
    };
    Some(QuotaWindow { remaining, minutes, resets_at })
}

/// Reads the primary and secondary windows of a quota object.
pub fn windows(
    value: Option<&Json>,
    used: &str,
    resets: &str,
    minutes: &str,
    source: &str,
    at: i64,
) -> (ws: Vec<QuotaWindow>)
    ensures
        ws@.map_values(|w: QuotaWindow| w@) == windows_view(found(value), used@, resets@, minutes@, source@, at),
{
    let mut ws: Vec<QuotaWindow> = Vec::new();
    let first = window(member(value, "primary"), used, resets, minutes, source, at);
    let ghost after_first = Seq::<WindowView>::empty();
    if let Some(w) = first {
        ws.push(w);
    }
    let ghost firsts = ws@;
    let second = window(member(value, "secondary"), used, resets, minutes, source, at);
    if let Some(w) = second {
        ws.push(w);
    }
    proof {
        let v = found(value);
        let p = v.at("primary"@);
        let s = v.at("secondary"@);
        let wp = if p.is_object() { seq![window_view(p, used@, resets@, minutes@, source@, at)] } else { seq![] };
        let wsec = if s.is_object() { seq![window_view(s, used@, resets@, minutes@, source@, at)] } else { seq![] };
        assert(firsts.map_values(|w: QuotaWindow| w@) =~= wp);
        assert(ws@.map_values(|w: QuotaWindow| w@) =~= wp + wsec);
    }
    ws
}

/// A quota bucket read from a local rate-limit object at `at`: it needs an
/// id of at most 128 bytes; its name defaults to the id.
pub open spec fn local_quota_view(value: Json, at: i64) -> Option<QuotaView> {
    if !value.is_object() || bounded_text(value.at("limit_id"@), 128) is None {
        None
    } else {
        let id = bounded_text(value.at("limit_id"@), 128).unwrap();
        Some(
            QuotaView {
                id,
                name: match bounded_text(value.at("limit_name"@), 128) {
                    Some(n) => n,
                    None => id,
                },
                windows: windows_view(value, "used_percent"@, "resets_at"@, "window_minutes"@, "local"@, at),
                credit_balance: bounded_text(value.at("credits"@).at("balance"@), 64),
                unlimited_credits: value.at("credits"@).at("unlimited"@).bool_of(),
            },
        )
    }
}

/// Reads a quota bucket from a local rate-limit object.
pub fn quota(value: Option<&Json>, observed_at: i64) -> (q: Option<Quota>)
    ensures
        q is Some <==> local_quota_view(found(value), observed_at) is Some,
        q is Some ==> q.unwrap()@ == local_quota_view(found(value), observed_at).unwrap(),
{
    if !object_in(value) {
        return None;
    }
    let id = match text(member(value, "limit_id"), 128) {
        Some(id) => id,
        None => return None,
    };
    let ws = windows(value, "used_percent", "resets_at", "window_minutes", "local", observed_at);
    let name = match text(member(value, "limit_name"), 128) {
        Some(name) => name,
        None => id.clone(),
    };
    let credits = member(value, "credits");
    Some(
        Quota {
            name,
            id,
            windows: ws,
            credit_balance: text(member(credits, "balance"), 64),
            unlimited_credits: bool_in(member(credits, "unlimited")),
        },
    )
}

/// The quota reading of a token-count record, with its time.
pub open spec fn rate_limits_view(row: Json) -> Option<(i64, QuotaView)> {
    if !row.at("type"@).is_text("event_msg"@) || !row.at("payload"@).at("type"@).is_text(
        "token_count"@,
    ) {
        None
    } else {
        match time_of(row) {
            Some(t) => match local_quota_view(row.at("payload"@).at("rate_limits"@), t) {
                Some(q) => Some((t, q)),
                None => None,
            },
            None => None,
        }
    }
}

/// The quota reading of a token-count record, with its time.
pub fn rate_limits(row: &Json) -> (r: Option<(i64, Quota)>)
    ensures
        r is Some <==> rate_limits_view(*row) is Some,
        r is Some ==> r.unwrap().0 == rate_limits_view(*row).unwrap().0 && r.unwrap().1@
            == rate_limits_view(*row).unwrap().1,
{
    let row_ref = Some(row);
    let payload = member(row_ref, "payload");
    if !text_is(member(row_ref, "type"), "event_msg") || !text_is(member(payload, "type"), "token_count") {
        return None;
    }
    let observed_at = match at(row) {
        Some(t) => t,
        None => return None,
    };
    match quota(member(payload, "rate_limits"), observed_at) {
        Some(q) => Some((observed_at, q)),
        None => None,
    }
}

/// The project of a session working in `path`: the last component of a
/// plain path when that is a name, else the path itself; for other paths,
/// the name the platform gives (never empty) or the path itself.
pub open spec fn project_of(path: Seq<char>, project: Seq<char>) -> bool {
    if plain(path) {
        project == match last_name(path) {
            Some(n) => n,
            None => path,
        }
    } else {
        project == path || project.len() > 0
    }
}

/// Session metadata read from a record under the data root with identity
/// `root_id`: the session is identified by the root's identity and the
/// session's id; its path is the working directory (empty when missing),
/// and its project is the last component of that path (the whole path when
/// it has none).
pub open spec fn session_meta_in(root_id: Seq<char>, row: Json) -> Option<(Seq<char>, Seq<char>)> {
    if !row.at("type"@).is_text("session_meta"@) || bounded_text(row.at("payload"@).at("id"@), 256)
        is None {
        None
    } else {
        let id = bounded_text(row.at("payload"@).at("id"@), 256).unwrap();
        let path = match bounded_text(row.at("payload"@).at("cwd"@), 4096) {
            Some(p) => p,
            None => seq![],
        };
        Some((root_id + ":"@ + id, path))
    }
}

/// Session metadata read from a record under a data root, which is known
/// by its identity.
pub open spec fn session_meta(root: &str, row: Json) -> Option<(Seq<char>, Seq<char>)> {
    session_meta_in(hex_lower(sha256(root.spec_bytes()).take(12)), row)
}

/// Reads session metadata from a record under the data root with identity
/// `root_id`.
pub fn session_in(root_id: &str, row: &Json) -> (s: Option<Session>)
    ensures
        s is Some <==> session_meta_in(root_id@, *row) is Some,
        s is Some ==> {
            let (id, path) = session_meta_in(root_id@, *row).unwrap();
            &&& s.unwrap().id@ == id
            &&& s.unwrap().path@ == path
            &&& project_of(path, s.unwrap().project@)
            &&& s.unwrap()@ == fresh_view(id, path, s.unwrap().project@)
        },
{
    let row_ref = Some(row);
    if !text_is(member(row_ref, "type"), "session_meta") {
        return None;
    }
    let payload = member(row_ref, "payload");
    let session_id = match text(member(payload, "id"), 256) {
        Some(id) => id,
        None => return None,
    };
    let path = match text(member(payload, "cwd"), 4096) {
        Some(p) => p,
        None => String::new(),
    };
    let project = match file_name(path.as_str()) {
        Some(name) => name,
        None => path.clone(),
    };
    let mut id = root_id.to_owned();
    push_str(&mut id, ":");
    push_str(&mut id, session_id.as_str());
    Some(Session::new(id, path, project))
}

/// Reads session metadata from a record under a data root.
pub fn session(root: &str, row: &Json) -> (s: Option<Session>)
    ensures
        s is Some <==> session_meta(root, *row) is Some,
        s is Some ==> {
            let (id, path) = session_meta(root, *row).unwrap();
            &&& s.unwrap().id@ == id
            &&& s.unwrap().path@ == path
            &&& project_of(path, s.unwrap().project@)
            &&& s.unwrap()@ == fresh_view(id, path, s.unwrap().project@)
        },
{
    let root_id = identity(root);
    session_in(root_id.as_str(), row)
}

/// The text that precedes the arguments of a command call in scripted tool
/// input.
pub const CALL: &'static str = "tools.exec_command(";

/// Whether `pattern` occurs in `text` at byte `i`.
pub open spec fn occurs_at(text: Seq<u8>, pattern: Seq<u8>, i: int) -> bool {
    0 <= i && i + pattern.len() <= text.len() && text.subrange(i, i + pattern.len()) == pattern
}

/// The byte offsets just after each occurrence of `pattern` in `text`,
/// found left to right without overlaps.
pub open spec fn offsets_after(text: Seq<u8>, pattern: Seq<u8>, from: int) -> Seq<int>
    decreases text.len() - from,
{
    if pattern.len() == 0 || from < 0 || from + pattern.len() > text.len() {
        seq![]
    } else if occurs_at(text, pattern, from) {
        seq![from + pattern.len()].add(offsets_after(text, pattern, from + pattern.len()))
    } else {
        offsets_after(text, pattern, from + 1)
    }
}

fn bytes_at(text: &[u8], pattern: &[u8], i: usize) -> (r: bool)
    requires
        i + pattern@.len() <= text@.len(),
    ensures
        r == occurs_at(text@, pattern@, i as int),
{
    let n = text.len();
    let mut j: usize = 0;
    while j < pattern.len()
        invariant
            n == text@.len(),
            j <= pattern@.len(),
            i + pattern@.len() <= text@.len(),
            forall|k: int| 0 <= k < j ==> text@[i + k] == pattern@[k],
        decreases pattern@.len() - j,
    {
        if text[i + j] != pattern[j] {
            proof {
                assert(text@.subrange(i as int, i + pattern@.len())[j as int] != pattern@[j as int]);
            }
            return false;
        }
        j = j + 1;
    }
    proof {
        assert(text@.subrange(i as int, i + pattern@.len()) =~= pattern@);
    }
    true
}

/// The byte offsets in `source` just after each call of the command tool:
/// where the call's arguments begin.
pub fn call_argument_offsets(source: &str) -> (offsets: Vec<usize>)
    ensures
        offsets@.map_values(|o: usize| o as int) == offsets_after(source.spec_bytes(), CALL.spec_bytes(), 0),
{
    let text = source.as_bytes();
    let pattern = CALL.as_bytes();
    let mut offsets: Vec<usize> = Vec::new();
    let mut i: usize = 0;
    if pattern.len() == 0 || pattern.len() > text.len() {
        proof {
            assert(offsets_after(text@, pattern@, 0) == Seq::<int>::empty());
            assert(offsets@.map_values(|o: usize| o as int) =~= Seq::<int>::empty());
        }
        return offsets;
    }
    let n = text.len();
    let last = n - pattern.len();
    while i <= last
        invariant
            n == text@.len(),
            last + pattern@.len() == text@.len(),
            text@ == source.spec_bytes(),
            pattern@ == CALL.spec_bytes(),
            pattern@.len() > 0,
            i <= text@.len(),
            offsets@.map_values(|o: usize| o as int) + offsets_after(text@, pattern@, i as int)
                == offsets_after(text@, pattern@, 0),
        decreases text@.len() - i,
    {
        let ghost before = offsets@;
        if bytes_at(text, pattern, i) {
            offsets.push(i + pattern.len());
            proof {
                assert(offsets@.map_values(|o: usize| o as int) =~= before.map_values(|o: usize| o as int).push(i + pattern@.len()));
                assert(offsets_after(text@, pattern@, i as int) == seq![i + pattern@.len()].add(
                    offsets_after(text@, pattern@, i + pattern@.len()),
                ));
                assert(offsets@.map_values(|o: usize| o as int) + offsets_after(text@, pattern@, i + pattern@.len())
                    =~= before.map_values(|o: usize| o as int) + offsets_after(text@, pattern@, i as int));
            }
            i = i + pattern.len();
        } else {
            i = i + 1;
        }
    }
    proof {
        assert(offsets_after(text@, pattern@, i as int) == Seq::<int>::empty());
        assert(offsets@.map_values(|o: usize| o as int) =~= offsets@.map_values(|o: usize| o as int) + Seq::<int>::empty());
    }
    offsets
}

/// A record of a session log, with the JSON documents that the application
/// parsed out of the command text of a tool call: for the payload's `input`
/// and `arguments` strings, the whole string when it is a JSON document,
/// and the document that begins at each offset that
/// `call_argument_offsets` gives.
pub struct Record {
    pub row: Json,
    pub input_documents: Vec<Json>,
    pub argument_documents: Vec<Json>,
}

/// Whether a value asks for an escalated sandbox.
pub open spec fn escalates(value: Json) -> bool {
    value.at("sandbox_permissions"@).is_text("require_escalated"@)
}

/// Whether command arguments ask for an escalated sandbox: directly, or,
/// when they are text, through a document parsed out of that text.
pub open spec fn approval_argument_spec(value: Json, documents: Seq<Json>) -> bool {
    escalates(value) || (value.text_of() is Some && exists|i: int|
        0 <= i < documents.len() && escalates(#[trigger] documents[i]))
}

/// Whether command arguments ask for an escalated sandbox.
pub fn approval_argument(value: Option<&Json>, documents: &Vec<Json>) -> (r: bool)
    ensures
        r == approval_argument_spec(found(value), documents@),
{
    if text_is(member(value, "sandbox_permissions"), "require_escalated") {
        return true;
    }
    if text_in(value).is_none() {
        return false;
    }
    let mut i: usize = 0;
    while i < documents.len()
        invariant
            i <= documents@.len(),
            found(value).text_of() is Some,
            !escalates(found(value)),
            forall|j: int| 0 <= j < i ==> !escalates(#[trigger] documents@[j]),
        decreases documents@.len() - i,
    {
        if text_is(documents[i].get("sandbox_permissions"), "require_escalated") {
            proof {
                assert(escalates(documents@[i as int]));
            }
            return true;
        }
        i = i + 1;
    }
    false
}

/// The call id of a command call that asks for approval: an `exec` tool
/// call or an `exec_command`/`exec` function call whose input or arguments
/// escalate.
pub open spec fn approval_request_spec(payload: Json, input: Seq<Json>, arguments: Seq<Json>) -> Option<
    Seq<char>,
> {
    match payload.at("type"@).text_of() {
        Some(kind) => {
            let supported = if kind == "custom_tool_call"@ {
                payload.at("name"@).is_text("exec"@)
            } else if kind == "function_call"@ {
                payload.at("name"@).is_text("exec_command"@) || payload.at("name"@).is_text("exec"@)
            } else {
                false
            };
            if supported && (approval_argument_spec(payload.at("input"@), input) || approval_argument_spec(
                payload.at("arguments"@),
                arguments,
            )) {
                bounded_text(payload.at("call_id"@), 256)
            } else {
                None
            }
        },
        None => None,
    }
}

/// The call id of a command call that asks for approval.
pub fn approval_request(payload: Option<&Json>, input: &Vec<Json>, arguments: &Vec<Json>) -> (r: Option<String>)
    ensures
        r is Some <==> approval_request_spec(found(payload), input@, arguments@) is Some,
        r is Some ==> r.unwrap()@ == approval_request_spec(found(payload), input@, arguments@).unwrap(),
{
    let kind = match text_in(member(payload, "type")) {
        Some(kind) => kind,
        None => return None,
    };
    let name = member(payload, "name");
    let supported = if str_eq(kind, "custom_tool_call") {
        text_is(name, "exec")
    } else if str_eq(kind, "function_call") {
        text_is(name, "exec_command") || text_is(name, "exec")
    } else {
        false
    };
    if supported && (approval_argument(member(payload, "input"), input) || approval_argument(
        member(payload, "arguments"),
        arguments,
    )) {
        text(member(payload, "call_id"), 256)
    } else {
        None
    }
}

/// The call id of a tool call's output, which answers the call.
pub open spec fn approval_response_spec(payload: Json) -> Option<Seq<char>> {
    if payload.at("type"@).is_text("custom_tool_call_output"@) || payload.at("type"@).is_text(
        "function_call_output"@,
    ) {
        bounded_text(payload.at("call_id"@), 256)
    } else {
        None
    }
}

/// The call id of a tool call's output.
pub fn approval_response(payload: Option<&Json>) -> (r: Option<String>)
    ensures
        r is Some <==> approval_response_spec(found(payload)) is Some,
        r is Some ==> r.unwrap()@ == approval_response_spec(found(payload)).unwrap(),
{
    let kind = member(payload, "type");
    if text_is(kind, "custom_tool_call_output") || text_is(kind, "function_call_output") {
        text(member(payload, "call_id"), 256)
    } else {
        None
    }
}

/// The session event that a record written at `at` describes, if any.
pub open spec fn event_at_spec(row: Json, input: Seq<Json>, arguments: Seq<Json>, at: i64) -> Option<EventView> {
    let payload = row.at("payload"@);
    match row.at("type"@).text_of() {
        Some(kind) => if kind == "turn_context"@ {
            Some(
                EventView::Context {
                    at,
                    model: bounded_text(payload.at("model"@), 128),
                    effort: bounded_text(payload.at("effort"@), 32),
                },
            )
        } else if kind == "event_msg"@ {
            let info = payload.at("info"@);
            match payload.at("type"@).text_of() {
                Some(t) => if t == "token_count"@ {
                    Some(
                        EventView::Usage {
                            at,
                            total: usage_of(info.at("total_token_usage"@)),
                            last: usage_of(info.at("last_token_usage"@)),
                            context_limit: info.at("model_context_window"@).u64_of(),
                        },
                    )
                } else if t == "task_started"@ {
                    match bounded_text(payload.at("turn_id"@), 256) {
                        Some(turn) => Some(EventView::TurnStarted { at, turn }),
                        None => None,
                    }
                } else if t == "task_complete"@ || t == "turn_aborted"@ {
                    match bounded_text(payload.at("turn_id"@), 256) {
                        Some(turn) => Some(
                            EventView::TurnEnded {
                                at,
                                turn,
                                activity: if t == "task_complete"@ {
                                    Activity::Completed
                                } else {
                                    Activity::Interrupted
                                },
                                duration_ms: payload.at("duration_ms"@).u64_of(),
                            },
                        ),
                        None => None,
                    }
                } else {
                    None
                },
                None => None,
            }
        } else if kind == "response_item"@ {
            match approval_request_spec(payload, input, arguments) {
                Some(request) => Some(EventView::ApprovalRequested { at, request }),
                None => match approval_response_spec(payload) {
                    Some(request) => Some(EventView::ApprovalResolved { at, request }),
                    None => None,
                },
            }
        } else {
            None
        },
        _ => None,
    }
}

/// The session event that a record describes, if any: none without a
/// time.
pub open spec fn event_of(row: Json, input: Seq<Json>, arguments: Seq<Json>) -> Option<EventView> {
    match time_of(row) {
        Some(at) => event_at_spec(row, input, arguments, at),
        None => None,
    }
}

/// The session event that a record describes, if any.
pub fn event(record: &Record) -> (e: Option<Event>)
    ensures
        e is Some <==> event_of(record.row, record.input_documents@, record.argument_documents@) is Some,
        e is Some ==> e.unwrap()@ == event_of(record.row, record.input_documents@, record.argument_documents@).unwrap(),
{
    match at(&record.row) {
        Some(t) => event_at(record, t),
        None => None,
    }
}

/// The session event that a record written at `at` describes, if any.
pub fn event_at(record: &Record, at: i64) -> (e: Option<Event>)
    ensures
        e is Some <==> event_at_spec(record.row, record.input_documents@, record.argument_documents@, at) is Some,
        e is Some ==> e.unwrap()@ == event_at_spec(
            record.row,
            record.input_documents@,
            record.argument_documents@,
            at,
        ).unwrap(),
{
    let row = &record.row;
    let row_ref = Some(row);
    let payload = member(row_ref, "payload");
    let kind = match text_in(member(row_ref, "type")) {
        Some(kind) => kind,
        None => return None,
    };
    if str_eq(kind, "turn_context") {
        Some(
            Event::Context {
                at,
                model: text(member(payload, "model"), 128),
                effort: text(member(payload, "effort"), 32),
            },
        )
    } else if str_eq(kind, "event_msg") {
        let info = member(payload, "info");
        let t = match text_in(member(payload, "type")) {
            Some(t) => t,
            None => return None,
        };
        if str_eq(t, "token_count") {
            Some(
                Event::Usage {
                    at,
                    total: usage(member(info, "total_token_usage")),
                    last: usage(member(info, "last_token_usage")),
                    context_limit: u64_in(member(info, "model_context_window")),
                },
            )
        } else if str_eq(t, "task_started") {
            match text(member(payload, "turn_id"), 256) {
                Some(turn) => Some(Event::TurnStarted { at, turn }),
                None => None,
            }
        } else if str_eq(t, "task_complete") || str_eq(t, "turn_aborted") {
            let activity = if str_eq(t, "task_complete") {
                Activity::Completed
            } else {
                Activity::Interrupted
            };
            match text(member(payload, "turn_id"), 256) {
                Some(turn) => Some(
                    Event::TurnEnded {
                        at,
                        turn,
                        activity,
                        duration_ms: u64_in(member(payload, "duration_ms")),
                    },
                ),
                None => None,
            }
        } else {
            None
        }
    } else if str_eq(kind, "response_item") {
        match approval_request(payload, &record.input_documents, &record.argument_documents) {
            Some(request) => Some(Event::ApprovalRequested { at, request }),
            None => match approval_response(payload) {
                Some(request) => Some(Event::ApprovalResolved { at, request }),
                None => None,
            },
        }
    } else {
        None
    }
}

/// Whether `w` is the window read from the object `obj`: the share left of
/// its used percentage, the given source, observed at `at` when there is a
/// share (and unavailable when there is none, stale when its reset, in
/// seconds, has passed), its positive length in minutes, and its reset time
/// in milliseconds.
pub open spec fn read_from(
    w: WindowView,
    obj: Json,
    used: Seq<char>,
    resets: Seq<char>,
    minutes: Seq<char>,
    source: Seq<char>,
    at: i64,
) -> bool {
    let seconds = obj.at(resets).i64_of();
    &&& w.share == obj.at(used).share_left_of()
    &&& w.source == source
    &&& (w.share is Some ==> w.observed_at == Some(at))
    &&& (w.share is None ==> w.observed_at is None && w.quality == Quality::Unavailable)
    &&& (seconds is None ==> w.resets_at is None)
    &&& (seconds is Some && i64::MIN <= seconds.unwrap() * 1000 <= i64::MAX ==> w.resets_at == Some(
        (seconds.unwrap() * 1000) as i64,
    ))
    &&& (w.share is Some ==> (w.quality == Quality::Stale <==> (w.resets_at is Some && w.resets_at.unwrap()
        <= at)))
    &&& (w.share is Some && w.quality != Quality::Stale ==> w.quality == Quality::Fresh)
    &&& (obj.at(minutes).u64_of() is Some && obj.at(minutes).u64_of().unwrap() > 0 ==> w.minutes
        == obj.at(minutes).u64_of())
    &&& (obj.at(minutes).u64_of() is None || obj.at(minutes).u64_of() == Some(0u64) ==> w.minutes is None)
}

/// The windows of a quota object are read from its members: the primary
/// window from `primary` and the secondary one from `secondary`, each only
/// when that member is an object, the primary first.
pub proof fn lemma_windows_read_each_member(
    value: Json,
    used: Seq<char>,
    resets: Seq<char>,
    minutes: Seq<char>,
    source: Seq<char>,
    at: i64,
)
    ensures
        ({
            let p = value.at("primary"@);
            let s = value.at("secondary"@);
            let ws = windows_view(value, used, resets, minutes, source, at);
            &&& p.is_object() && s.is_object() ==> ws.len() == 2 && read_from(
                ws[0],
                p,
                used,
                resets,
                minutes,
                source,
                at,
            ) && read_from(ws[1], s, used, resets, minutes, source, at)
            &&& p.is_object() && !s.is_object() ==> ws.len() == 1 && read_from(
                ws[0],
                p,
                used,
                resets,
                minutes,
                source,
                at,
            )
            &&& !p.is_object() && s.is_object() ==> ws.len() == 1 && read_from(
                ws[0],
                s,
                used,
                resets,
                minutes,
                source,
                at,
            )
            &&& !p.is_object() && !s.is_object() ==> ws.len() == 0
        }),
{
}

/// The counts of a usage object, each from its own member, or none when
/// the value is not an object.
pub open spec fn counts_in(value: Json) -> Option<Usage> {
    if value.is_object() {
        Some(
            Usage {
                input: value.at("input_tokens"@).u64_of(),
                cached_input: value.at("cached_input_tokens"@).u64_of(),
                output: value.at("output_tokens"@).u64_of(),
                total: value.at("total_tokens"@).u64_of(),
            },
        )
    } else {
        None
    }
}

/// A token-count record is a usage event at its time: the session's total
/// usage is read from `info.total_token_usage`, the last turn's from
/// `info.last_token_usage`, and the context window from
/// `info.model_context_window`.
pub proof fn lemma_token_count_reads_each_usage(row: Json, input: Seq<Json>, arguments: Seq<Json>, at: i64)
    requires
        row.at("type"@).text_of() == Some("event_msg"@),
        row.at("payload"@).at("type"@).text_of() == Some("token_count"@),
    ensures
        ({
            let info = row.at("payload"@).at("info"@);
            event_at_spec(row, input, arguments, at) == Some(
                EventView::Usage {
                    at,
                    total: counts_in(info.at("total_token_usage"@)),
                    last: counts_in(info.at("last_token_usage"@)),
                    context_limit: info.at("model_context_window"@).u64_of(),
                },
            )
        }),
{
    reveal_strlit("event_msg");
    reveal_strlit("turn_context");
    let info = row.at("payload"@).at("info"@);
    assert("event_msg"@.len() != "turn_context"@.len());
    assert(usage_of(info.at("total_token_usage"@)) == counts_in(info.at("total_token_usage"@)));
    assert(usage_of(info.at("last_token_usage"@)) == counts_in(info.at("last_token_usage"@)));
}

/// A turn-context record is a context event at its time, with the model
/// from `payload.model` (at most 128 bytes) and the reasoning effort from
/// `payload.effort` (at most 32 bytes).
pub proof fn lemma_turn_context_reads_model_and_effort(
    row: Json,
    input: Seq<Json>,
    arguments: Seq<Json>,
    at: i64,
)
    requires
        row.at("type"@).text_of() == Some("turn_context"@),
    ensures
        event_at_spec(row, input, arguments, at) == Some(
            EventView::Context {
                at,
                model: bounded_text(row.at("payload"@).at("model"@), 128),
                effort: bounded_text(row.at("payload"@).at("effort"@), 32),
            },
        ),
{
}

/// A task record of the current format is a turn event at its time, for
/// the turn named by `payload.turn_id` (at most 256 bytes): `task_started`
/// starts it, `task_complete` ends it as completed and `turn_aborted` as
/// interrupted, each end with the duration from `payload.duration_ms`.
pub proof fn lemma_task_records_are_turn_events(
    row: Json,
    input: Seq<Json>,
    arguments: Seq<Json>,
    at: i64,
    turn: Seq<char>,
)
    requires
        row.at("type"@).text_of() == Some("event_msg"@),
        bounded_text(row.at("payload"@).at("turn_id"@), 256) == Some(turn),
    ensures
        ({
            let payload = row.at("payload"@);
            let kind = payload.at("type"@).text_of();
            let e = event_at_spec(row, input, arguments, at);
            &&& kind == Some("task_started"@) ==> e == Some(EventView::TurnStarted { at, turn })
            &&& kind == Some("task_complete"@) ==> e == Some(
                EventView::TurnEnded {
                    at,
                    turn,
                    activity: Activity::Completed,
                    duration_ms: payload.at("duration_ms"@).u64_of(),
                },
            )
            &&& kind == Some("turn_aborted"@) ==> e == Some(
                EventView::TurnEnded {
                    at,
                    turn,
                    activity: Activity::Interrupted,
                    duration_ms: payload.at("duration_ms"@).u64_of(),
                },
            )
        }),
{
    reveal_strlit("event_msg");
    reveal_strlit("turn_context");
    reveal_strlit("token_count");
    reveal_strlit("task_started");
    reveal_strlit("task_complete");
    reveal_strlit("turn_aborted");
    assert("event_msg"@.len() != "turn_context"@.len());
    assert("task_started"@.len() != "token_count"@.len());
    assert("task_complete"@.len() != "token_count"@.len());
    assert("turn_aborted"@.len() != "token_count"@.len());
    assert("task_complete"@.len() != "task_started"@.len());
    assert("turn_aborted"@[1] != "task_started"@[1]);
    assert("turn_aborted"@.len() != "task_complete"@.len());
}

} // verus!
