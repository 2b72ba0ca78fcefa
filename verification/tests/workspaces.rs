use serde_json::Value;
use tfrm::error::Error;
use tfrm::json::Json;
use tfrm::workspaces::{
    render_workspaces, workspace_id_of, workspace_lookup, workspace_path, workspace_row_of, workspace_rows,
    workspaces_path,
};

fn to_json(v: &Value) -> Json {
    match v {
        Value::Null => Json::Null,
        Value::Bool(b) => Json::Bool(*b),
        Value::Number(n) => Json::Number(n.to_string()),
        Value::String(s) => Json::Str(s.clone()),
        Value::Array(a) => Json::Array(a.iter().map(to_json).collect()),
        Value::Object(m) => Json::Object(m.iter().map(|(k, v)| (k.clone(), to_json(v))).collect()),
    }
}

fn parse(text: &str) -> Json {
    to_json(&serde_json::from_str(text).unwrap())
}

fn items(text: &str) -> Vec<Json> {
    match parse(text) {
        Json::Array(a) => a,
        _ => panic!("not an array"),
    }
}

const WS: &str = r#"{"id":"ws-1","type":"workspaces","attributes":{"name":"platform","latest-change-at":"2024-05-01","vcs-repo":{"identifier":"acme/infra"}},
 "relationships":{"current-run":{"data":{"id":"run-7","type":"runs"}}}}"#;
const INCLUDED: &str = r#"[{"id":"run-7","type":"runs","attributes":{"status":"applied"}}]"#;

#[test]
fn list_renders_columns_and_selected_marker() {
    let rows = workspace_rows(&items(&format!("[{WS}, {{\"attributes\":{{\"name\":\"other\"}}}}]")), &items(INCLUDED), Some("platform"));
    assert!(rows[0].selected);
    assert_eq!(rows[0].current_run_status.as_deref(), Some("applied"));
    assert_eq!(rows[0].vcs_repo.as_deref(), Some("acme/infra"));
    assert!(!rows[1].selected);
    assert_eq!(
        render_workspaces(&rows),
        "   NAME      RUN STATUS  VCS REPO    LATEST CHANGE\n*  platform  applied     acme/infra  2024-05-01\n   other\n"
    );
}

#[test]
fn select_unknown_workspace_exits_4() {
    let e = workspace_lookup(Err(Error::api(404, "not found")), "acme", "nope").unwrap_err();
    assert_eq!(e.exit_code(), 4);
    assert_eq!(e.message(), "workspace nope not found in organization acme");
    let e = workspace_lookup(Err(Error::api(500, "boom")), "acme", "nope").unwrap_err();
    assert_eq!(e.message(), "HTTP 500: boom");
    let ok = workspace_lookup(Ok(parse(&format!("{{\"data\": {WS}}}"))), "acme", "platform").unwrap();
    assert_eq!(workspace_id_of(&ok, "platform").unwrap(), "ws-1");
    assert!(matches!(workspace_id_of(&Json::Null, "platform"), Err(Error::Other(m)) if m == "workspace platform: response missing id"));
}

#[test]
fn paths() {
    assert_eq!(workspaces_path("acme"), "/api/v2/organizations/acme/workspaces");
    assert_eq!(workspace_path("acme", "platform"), "/api/v2/organizations/acme/workspaces/platform");
    let r = workspace_row_of(&parse(WS), &vec![], None);
    assert_eq!(r.current_run_status, None);
    assert!(!r.selected);
}
