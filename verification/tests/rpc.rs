use codex_status::json::{Json, JsonNumber};
use codex_status::rpc::{classify, method, quotas, version_token, Method, Reply, RpcError};
use codex_status::status::{Percent, Quality};

fn convert(value: &serde_json::Value) -> Json {
    match value {
        serde_json::Value::Null => Json::Null,
        serde_json::Value::Bool(b) => Json::Bool(*b),
        serde_json::Value::Number(n) => {
            let share_left = n
                .as_f64()
                .filter(|x| x.is_finite() && (0.0..=100.0).contains(x))
                .and_then(|x| Percent::from_bits((100.0 - x).to_bits()));
            Json::Number(JsonNumber { unsigned: n.as_u64(), signed: n.as_i64(), share_left })
        }
        serde_json::Value::String(s) => Json::Str(s.clone()),
        serde_json::Value::Array(items) => Json::Array(items.iter().map(convert).collect()),
        serde_json::Value::Object(map) => Json::Object(map.iter().map(|(k, v)| (k.clone(), convert(v))).collect()),
    }
}

fn parse(text: &str) -> Json {
    convert(&serde_json::from_str(text).unwrap())
}

fn pct(value: f64) -> Percent {
    Percent::from_bits(value.to_bits()).unwrap()
}

#[test]
fn quota_zero_missing_invalid_and_expired_remain_distinct() {
    let value = parse(
        r#"{"rateLimitsByLimitId":{"a":{"primary":{"usedPercent":100,"windowDurationMins":45,"resetsAt":100}},"b":{"primary":{"usedPercent":101},"secondary":{}}}}"#,
    );
    let result = quotas(&value, 100_000);
    assert_eq!(result.len(), 2);
    assert_eq!(result[0].windows[0].remaining.value, Some(pct(0.0)));
    assert_eq!(result[0].windows[0].remaining.quality, Quality::Stale);
    assert_eq!(result[1].windows[0].remaining.value, None);
    assert_eq!(result[1].windows[1].remaining.value, None);
    assert!(quotas(&Json::Null, 0).is_empty());
}

#[test]
fn a_single_rate_limit_falls_back_to_its_own_id_or_default() {
    let value = parse(r#"{"rateLimits":{"limitId":"codex","limitName":"Codex","primary":{"usedPercent":30,"windowDurationMins":0},"credits":{"balance":"12","unlimited":true}}}"#);
    let result = quotas(&value, 5);
    assert_eq!(result.len(), 1);
    assert_eq!(result[0].id, "codex");
    assert_eq!(result[0].name, "Codex");
    assert_eq!(result[0].windows[0].remaining.value, Some(pct(70.0)));
    assert_eq!(result[0].windows[0].remaining.source, "appServer");
    assert_eq!(result[0].windows[0].remaining.observed_at, Some(5));
    assert_eq!(result[0].windows[0].minutes, None);
    assert_eq!(result[0].credit_balance.as_deref(), Some("12"));
    assert_eq!(result[0].unlimited_credits, Some(true));
    let unnamed = parse(r#"{"rateLimits":{"primary":{}},"rateLimitsByLimitId":{}}"#);
    let result = quotas(&unnamed, 5);
    assert_eq!(result[0].id, "default");
    assert_eq!(result[0].name, "default");
    assert_eq!(result[0].windows[0].remaining.quality, Quality::Unavailable);
}

#[test]
fn replies_are_matched_by_id_and_errors_are_named() {
    assert_eq!(classify(&parse(r#"{"id":3,"result":{}}"#), 3), Reply::Answered);
    assert_eq!(classify(&parse(r#"{"id":2,"result":{}}"#), 3), Reply::Other);
    assert_eq!(classify(&parse(r#"{"id":3,"method":"note"}"#), 3), Reply::Other);
    assert_eq!(classify(&parse(r#"{"id":3}"#), 3), Reply::Invalid);
    assert_eq!(classify(&parse(r#"{"id":3,"error":{"code":401}}"#), 3), Reply::Failed(RpcError::AuthRequired));
    assert_eq!(classify(&parse(r#"{"id":3,"error":{"code":403}}"#), 3), Reply::Failed(RpcError::AuthRequired));
    assert_eq!(classify(&parse(r#"{"id":3,"error":{"code":-32601}}"#), 3), Reply::Failed(RpcError::UnsupportedMethod));
    assert_eq!(classify(&parse(r#"{"id":3,"error":{}}"#), 3), Reply::Failed(RpcError::QueryFailed));
    assert_eq!(RpcError::AuthRequired.code(), "auth-required");
    assert_eq!(RpcError::UnsupportedMethod.code(), "unsupported-method");
    assert_eq!(RpcError::QueryFailed.code(), "query-failed");
}

#[test]
fn only_known_methods_may_be_called() {
    assert_eq!(method("initialize"), Ok(Method::Initialize));
    assert_eq!(method("account/read"), Ok(Method::AccountRead));
    assert_eq!(method("account/rateLimits/read"), Ok(Method::RateLimitsRead));
    assert_eq!(method("account/logout"), Err("forbidden-method".to_owned()));
}

#[test]
fn the_version_is_the_first_dotted_triple_of_digits() {
    assert_eq!(version_token("codex-cli 0.153.4\n"), Some("0.153.4".to_owned()));
    assert_eq!(version_token("v1.2 build 1.2.3.4 then 10.0.1"), Some("10.0.1".to_owned()));
    assert_eq!(version_token("no version"), None);
    assert_eq!(version_token(""), None);
}

#[test]
fn each_request_sends_fixed_parameters() {
    assert!(matches!(
        codex_status::rpc::params(Method::AccountRead),
        Json::Object(entries) if entries.len() == 1 && entries[0].0 == "refreshToken" && matches!(entries[0].1, Json::Bool(false))
    ));
    assert!(matches!(codex_status::rpc::params(Method::RateLimitsRead), Json::Object(entries) if entries.is_empty()));
    let Json::Object(entries) = codex_status::rpc::params(Method::Initialize) else {
        panic!("parameters are an object");
    };
    assert_eq!(entries[0].0, "clientInfo");
    let Json::Object(client) = &entries[0].1 else {
        panic!("client info is an object");
    };
    assert!(matches!(&client[0], (key, Json::Str(name)) if key == "name" && name == "codex_status"));
    assert!(matches!(&client[1], (key, Json::Str(version)) if key == "version" && version == "0.1.0"));
}
