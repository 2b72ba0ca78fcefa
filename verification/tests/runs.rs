use serde_json::Value;
use tfrm::json::Json;
use tfrm::runs::{is_planning, list_query, render_runs, row, rows, run_meta, run_path, runs_path, RunRow};

fn to_json(v: &Value) -> Json {
    match v {
        Value::Null => Json::Null,
        Value::Bool(b) => Json::Bool(*b),
        Value::Number(n) => Json::Number(n.to_string()),
        Value::String(s) => Json::Str(s.clone()),
        Value::Array(a) => Json::Array(a.iter().map(to_json).collect()),
        Value::Object(m) => Json::Object(m.iter().map(|(k, v)| (k.clone(), to_json(v))).collect()),
    }
}

fn parse(text: &str) -> Json {
    to_json(&serde_json::from_str(text).unwrap())
}

fn items(text: &str) -> Vec<Json> {
    match parse(text) {
        Json::Array(a) => a,
        _ => panic!("not an array"),
    }
}

const RUN: &str = r#"{"id":"run-1","type":"runs",
  "attributes":{"status":"planned","created-at":"2024-05-01T10:00:00Z","message":"Fix things\n\nbody","source":"tfe-api","actions":{"is-confirmable":true}},
  "relationships":{"configuration-version":{"data":{"id":"cv-1","type":"configuration-versions"}},
                   "workspace":{"data":{"id":"ws-1","type":"workspaces"}}}}"#;

const INCLUDED: &str = r#"[
  {"id":"cv-1","type":"configuration-versions","relationships":{"ingress-attributes":{"data":{"id":"ia-1","type":"ingress-attributes"}}}},
  {"id":"ia-1","type":"ingress-attributes","attributes":{"commit-sha":"0123456789abcdef"}},
  {"id":"ws-1","type":"workspaces","attributes":{"name":"platform"}}]"#;

#[test]
fn list_shows_commit_source_and_confirmable_in_one_request() {
    let r = row(&parse(RUN), &items(INCLUDED));
    assert_eq!(r.id, "run-1");
    assert_eq!(r.status, "planned");
    assert_eq!(r.created_at.as_deref(), Some("2024-05-01T10:00:00Z"));
    assert_eq!(r.commit_sha.as_deref(), Some("0123456789abcdef"));
    assert_eq!(r.source.as_deref(), Some("tfe-api"));
    assert!(r.confirmable);
    assert_eq!(
        list_query(None),
        vec![("include".to_string(), "configuration_version.ingress_attributes".to_string())]
    );
}

#[test]
fn status_flag_maps_to_filter_status() {
    assert_eq!(
        list_query(Some("applied")),
        vec![
            ("include".to_string(), "configuration_version.ingress_attributes".to_string()),
            ("filter[status]".to_string(), "applied".to_string()),
        ]
    );
    assert_eq!(runs_path("ws-1"), "/api/v2/workspaces/ws-1/runs");
}

#[test]
fn commit_needs_every_link() {
    let partial = items(r#"[{"id":"cv-1","type":"configuration-versions"}]"#);
    assert_eq!(row(&parse(RUN), &partial).commit_sha, None);
    let bare = row(&parse(r#"{"id":"run-2"}"#), &vec![]);
    assert_eq!(bare.status, "");
    assert!(!bare.confirmable);
    assert_eq!(rows(&items(&format!("[{RUN}, {{\"id\":\"run-2\"}}]")), &items(INCLUDED)).len(), 2);
}

#[test]
fn run_meta_resolves_workspace_and_commit() {
    let doc = parse(&format!("{{\"data\": {RUN}, \"included\": {INCLUDED}}}"));
    let (meta, run) = run_meta(&doc, "run-1");
    assert_eq!(meta.id, "run-1");
    assert_eq!(meta.workspace.as_deref(), Some("platform"));
    assert_eq!(meta.status, "planned");
    assert_eq!(meta.commit_sha.as_deref(), Some("0123456789abcdef"));
    assert_eq!(meta.message.as_deref(), Some("Fix things\n\nbody"));
    assert!(matches!(run.get("id"), Some(Json::Str(s)) if s == "run-1"));
    let (empty, run) = run_meta(&parse("{}"), "run-9");
    assert_eq!(empty.id, "run-9");
    assert!(run.is_null());
    assert_eq!(run_path("run-1"), "/api/v2/runs/run-1?include=workspace,configuration_version.ingress_attributes");
}

#[test]
fn runs_table_marks_confirmable_runs() {
    let r = RunRow {
        id: "run-1".into(),
        status: "planned".into(),
        created_at: Some("2024".into()),
        commit_sha: Some("0123456789abcdef".into()),
        message: Some("m".into()),
        source: Some("tfe-ui".into()),
        confirmable: true,
    };
    let text = render_runs(&vec![r]);
    assert_eq!(
        text,
        "   RUN ID  STATUS   CREATED  COMMIT    SOURCE  MESSAGE\n>  run-1   planned  2024     01234567  tfe-ui  m\n\n> = awaiting confirmation (tfrm runs apply <RUN_ID>)\n"
    );
}

#[test]
fn planning_statuses() {
    for s in ["pending", "fetching", "queuing", "plan_queued", "planning", "cost_estimating", "policy_checking"] {
        assert!(is_planning(s), "{s}");
    }
    assert!(!is_planning("planned"));
    assert!(!is_planning("applied"));
}

#[test]
fn multi_line_message_renders_subject_only() {
    let r = RunRow {
        id: "run-dep".into(),
        status: "pending".into(),
        created_at: Some("2026-08-01T00:00:00Z".into()),
        commit_sha: Some("aaaa1111bbbb2222".into()),
        message: Some(
            "Bump provider from 2.66.0 to 2.97.0 (#41)\n\nBumps [provider](https://example.com).\n\
             - [Release notes](https://example.com/releases)\n\n---\nupdated-dependencies:\n\
             - dependency-name: provider"
                .into(),
        ),
        source: Some("tfe-api".into()),
        confirmable: false,
    };
    let out = render_runs(&vec![r]);
    assert!(out.contains("Bump provider from 2.66.0 to 2.97.0 (#41)"), "{out}");
    assert!(!out.contains("updated-dependencies"), "{out}");
    assert!(!out.contains("Release notes"), "{out}");
    let lines: Vec<&str> = out.lines().filter(|l| !l.trim().is_empty()).collect();
    assert_eq!(lines.len(), 2, "{out}");
    assert!(lines[1].contains("run-dep"), "{out}");
}
