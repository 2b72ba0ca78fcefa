use serde_json::Value;
use tfrm::error::Error;
use tfrm::json::Json;
use tfrm::plan::{
    classify_actions, log_read_url, plan_fetch_step, plan_json_path, plan_record_path, record_summary,
    unexpected_plan_answer, ActionKind, PlanFetchStep,
};

fn to_json(v: &Value) -> Json {
    match v {
        Value::Null => Json::Null,
        Value::Bool(b) => Json::Bool(*b),
        Value::Number(n) => Json::Number(n.to_string()),
        Value::String(s) => Json::Str(s.clone()),
        Value::Array(a) => Json::Array(a.iter().map(to_json).collect()),
        Value::Object(m) => Json::Object(m.iter().map(|(k, v)| (k.clone(), to_json(v))).collect()),
    }
}

fn parse(text: &str) -> Json {
    to_json(&serde_json::from_str(text).unwrap())
}

fn acts(a: &[&str]) -> Vec<String> {
    a.iter().map(|s| s.to_string()).collect()
}

#[test]
fn actions_classify() {
    assert_eq!(classify_actions(&acts(&["create"])), ActionKind::Create);
    assert_eq!(classify_actions(&acts(&["update"])), ActionKind::Update);
    assert_eq!(classify_actions(&acts(&["delete"])), ActionKind::Delete);
    assert_eq!(classify_actions(&acts(&["read"])), ActionKind::Read);
    assert_eq!(classify_actions(&acts(&["delete", "create"])), ActionKind::Replace);
    assert_eq!(classify_actions(&acts(&["create", "delete"])), ActionKind::Replace);
    assert_eq!(classify_actions(&acts(&["no-op"])), ActionKind::NoOp);
    assert_eq!(classify_actions(&acts(&[])), ActionKind::NoOp);
    assert_eq!(classify_actions(&acts(&["create", "create"])), ActionKind::NoOp);
    assert_eq!(ActionKind::Replace.name(), "replace");
}

#[test]
fn follows_307_without_forwarding_authorization() {
    assert!(matches!(
        plan_fetch_step(307, Some("https://archivist.example/presigned".into()), "run-1"),
        Ok(PlanFetchStep::FollowPresigned(u)) if u == "https://archivist.example/presigned"
    ));
    assert!(matches!(plan_fetch_step(307, None, "run-1"), Err(Error::Other(_))));
    assert!(matches!(plan_fetch_step(200, None, "run-1"), Ok(PlanFetchStep::ReadBody)));
}

#[test]
fn forbidden_falls_back_to_plan_record_summary() {
    assert!(matches!(plan_fetch_step(403, None, "run-1"), Ok(PlanFetchStep::FetchSummary)));
    let doc = parse(
        r#"{"data":{"id":"plan-1","type":"plans","attributes":{"resource-additions":1,"resource-changes":2,"resource-destructions":3,"log-read-url":"https://archivist.example/log"}}}"#,
    );
    let s = record_summary(&doc, Some("log text".into()));
    assert_eq!((s.additions, s.changes, s.destructions), (1, 2, 3));
    assert_eq!(s.log.as_deref(), Some("log text"));
    assert_eq!(log_read_url(&doc).as_deref(), Some("https://archivist.example/log"));
    let odd = parse(r#"{"data":{"attributes":{"resource-additions":1.5,"resource-changes":"2"}}}"#);
    let s = record_summary(&odd, None);
    assert_eq!((s.additions, s.changes, s.destructions), (0, 0, 0));
}

#[test]
fn missing_plan_maps_to_not_found() {
    let e = plan_fetch_step(404, None, "run-x").unwrap_err();
    assert_eq!(e.exit_code(), 4);
    assert_eq!(e.message(), "run run-x has no plan JSON (run or plan not found)");
    assert!(matches!(plan_fetch_step(500, None, "run-x"), Ok(PlanFetchStep::CheckStatus)));
    assert_eq!(unexpected_plan_answer(500, None).exit_code(), 1);
    assert!(matches!(unexpected_plan_answer(204, None), Error::Other(m) if m == "unexpected response fetching plan JSON"));
    assert_eq!(plan_json_path("run-1"), "/api/v2/runs/run-1/plan/json-output");
    assert_eq!(plan_record_path("run-1"), "/api/v2/runs/run-1/plan");
}
