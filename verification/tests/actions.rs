use serde_json::Value;
use tfrm::actions::{
    override_outcome, override_path, policy_checks_from, policy_checks_path, run_action_body, run_action_outcome,
    run_action_path,
};
use tfrm::error::Error;
use tfrm::json::Json;

fn to_json(v: &Value) -> Json {
    match v {
        Value::Null => Json::Null,
        Value::Bool(b) => Json::Bool(*b),
        Value::Number(n) => Json::Number(n.to_string()),
        Value::String(s) => Json::Str(s.clone()),
        Value::Array(a) => Json::Array(a.iter().map(to_json).collect()),
        Value::Object(m) => Json::Object(m.iter().map(|(k, v)| (k.clone(), to_json(v))).collect()),
    }
}

#[test]
fn policy_checks_are_read_from_the_document() {
    let doc = to_json(
        &serde_json::from_str(
            r#"{"data":[
              {"id":"polchk-1","attributes":{"status":"soft_failed","permissions":{"can-override":true}}},
              {"id":"polchk-2","attributes":{"status":"passed"}},
              {"attributes":{"status":"hard_failed"}}]}"#,
        )
        .unwrap(),
    );
    let checks = policy_checks_from(&doc);
    assert_eq!(checks.len(), 2);
    assert_eq!(checks[0].id, "polchk-1");
    assert_eq!(checks[0].status, "soft_failed");
    assert!(checks[0].can_override);
    assert!(!checks[1].can_override);
    assert_eq!(policy_checks_path("run-1"), "/api/v2/runs/run-1/policy-checks");
}

#[test]
fn forbidden_apply_names_write_permission() {
    let e = run_action_outcome(Err(Error::api(403, "forbidden")), "run-1", "apply").unwrap_err();
    assert_eq!(e.exit_code(), 3);
    assert_eq!(e.message(), "the token lacks \"write\" permission on the workspace (cannot apply run run-1)");
    let e = run_action_outcome(Err(Error::api(409, "conflict")), "run-1", "apply").unwrap_err();
    assert_eq!(e.exit_code(), 6);
    assert!(run_action_outcome(Ok(()), "run-1", "apply").is_ok());
    assert_eq!(run_action_path("run-1", "force-cancel"), "/api/v2/runs/run-1/actions/force-cancel");
}

#[test]
fn override_posts_to_the_check_and_names_the_permission() {
    assert_eq!(override_path("polchk-1"), "/api/v2/policy-checks/polchk-1/actions/override");
    let e = override_outcome(Err(Error::api(403, "x")), "polchk-1").unwrap_err();
    assert_eq!(e.message(), "the token lacks the can-override permission on policy check polchk-1");
    assert!(override_outcome(Ok(()), "polchk-1").is_ok());
}

#[test]
fn comment_body() {
    assert!(run_action_body(None).is_none());
    match run_action_body(Some("ship it")) {
        Some(Json::Object(m)) => {
            assert_eq!(m.len(), 1);
            assert_eq!(m[0].0, "comment");
            assert!(matches!(&m[0].1, Json::Str(s) if s == "ship it"));
        },
        other => panic!("{other:?}"),
    }
}
