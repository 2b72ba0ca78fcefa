use serde_json::Value;
use tfrm::json::Json;
use tfrm::plan::PlanRecordSummary;
use tfrm::show::{self, compact, path_step_to_string, redacted_value, subject_line, RunMeta};

const SENTINEL: &str = "SENTINEL-DO-NOT-PRINT";

fn to_json(v: &Value) -> Json {
    match v {
        Value::Null => Json::Null,
        Value::Bool(b) => Json::Bool(*b),
        Value::Number(n) => Json::Number(n.to_string()),
        Value::String(s) => Json::Str(s.clone()),
        Value::Array(a) => Json::Array(a.iter().map(to_json).collect()),
        Value::Object(m) => Json::Object(m.iter().map(|(k, v)| (k.clone(), to_json(v))).collect()),
    }
}

fn parse(text: &str) -> Json {
    to_json(&serde_json::from_str(text).unwrap())
}

fn fixture_text(name: &str) -> &'static str {
    match name {
        "create.json" => r#"{"format_version":"1.2","resource_changes":[
            {"address":"aws_s3_bucket.assets","change":{"actions":["create"],"before":null,
             "after":{"bucket":"assets","acl":"private"},"after_unknown":{"arn":true},
             "before_sensitive":false,"after_sensitive":{}}}],
            "output_changes":{"bucket_name":{"actions":["create"],"before":null,"after":"assets","after_unknown":false}}}"#,
        "update.json" => r#"{"format_version":"1.2","resource_changes":[
            {"address":"aws_instance.web","change":{"actions":["update"],
             "before":{"ami":"ami-123","instance_type":"t3.medium"},
             "after":{"ami":"ami-123","instance_type":"t3.large"},
             "after_unknown":{},"before_sensitive":{},"after_sensitive":{}}},
            {"address":"aws_vpc.main","change":{"actions":["no-op"],"before":{"cidr":"10.0.0.0/16"},"after":{"cidr":"10.0.0.0/16"}}}]}"#,
        "replace.json" => r#"{"format_version":"1.2","resource_changes":[
            {"address":"aws_db_instance.main","change":{"actions":["delete","create"],
             "before":{"engine_version":"13.4","identifier":"main"},
             "after":{"engine_version":"15.2","identifier":"main"},
             "after_unknown":{},"replace_paths":[["engine_version"]]}}]}"#,
        "delete.json" => r#"{"format_version":"1.2","resource_changes":[
            {"address":"aws_eip.old","change":{"actions":["delete"],
             "before":{"public_ip":"203.0.113.7"},"after":null,"after_unknown":{}}}]}"#,
        "sensitive.json" => r#"{"format_version":"1.2","resource_changes":[
            {"address":"aws_db_instance.db","change":{"actions":["update"],
             "before":{"instance_class":"db.t3.micro","password":"old-password"},
             "after":{"instance_class":"db.t3.small","password":"SENTINEL-DO-NOT-PRINT"},
             "after_unknown":{},
             "before_sensitive":{"password":true},"after_sensitive":{"password":true}}}],
            "output_changes":{"db_password":{"actions":["update"],"before":"old-password",
             "after":"SENTINEL-DO-NOT-PRINT","after_unknown":false,
             "before_sensitive":true,"after_sensitive":true}}}"#,
        "unknown.json" => r#"{"format_version":"1.2","resource_changes":[
            {"address":"aws_instance.app","change":{"actions":["create"],"before":null,
             "after":{"ami":"ami-9","public_ip":null},"after_unknown":{"public_ip":true}}}],
            "output_changes":{"nat_ip":{"actions":["create"],"before":null,"after":null,"after_unknown":true}}}"#,
        _ => panic!("no fixture {name}"),
    }
}

fn fixture(name: &str) -> Json {
    parse(fixture_text(name))
}

fn meta() -> RunMeta {
    RunMeta {
        id: "run-abc123".into(),
        workspace: Some("platform".into()),
        status: "planned".into(),
        source: Some("tfe-api".into()),
        commit_sha: Some("aaaa1111bbbb2222".into()),
        message: Some("test message".into()),
    }
}

#[test]
fn sensitive_fixture_contains_the_sentinel() {
    let text = fixture_text("sensitive.json");
    assert!(text.contains(SENTINEL));
}

#[test]
fn sensitive_values_render_as_markers() {
    let report = show::build_report(meta(), &fixture("sensitive.json"));
    let text = show::render_text(&report);
    assert!(text.contains("password: (sensitive) -> (sensitive)"), "{text}");
    assert!(text.contains("db_password: (sensitive) -> (sensitive)"), "{text}");
    assert!(!text.contains(SENTINEL), "{text}");
}

#[test]
fn unknown_values_render_as_known_after_apply() {
    let report = show::build_report(meta(), &fixture("unknown.json"));
    let text = show::render_text(&report);
    assert!(text.contains("public_ip = (known after apply)"), "{text}");
    assert!(text.contains("nat_ip = (known after apply)"), "{text}");
}

#[test]
fn replace_marks_forcing_attribute() {
    let report = show::build_report(meta(), &fixture("replace.json"));
    let text = show::render_text(&report);
    assert!(text.contains("(forced by: engine_version)"), "{text}");
    assert!(text.contains("# forces replacement"), "{text}");
    assert!(text.contains("Plan: 1 to add, 0 to change, 1 to destroy."), "{text}");
}

#[test]
fn summary_counts_per_fixture() {
    let cases = [
        ("create.json", (1, 0, 0)),
        ("update.json", (0, 1, 0)),
        ("replace.json", (1, 0, 1)),
        ("delete.json", (0, 0, 1)),
    ];
    for (name, (add, change, destroy)) in cases {
        let report = show::build_report(meta(), &fixture(name));
        assert_eq!((report.summary.add, report.summary.change, report.summary.destroy), (add, change, destroy), "{name}");
    }
}

#[test]
fn full_text_of_an_update() {
    let report = show::build_report(meta(), &fixture("update.json"));
    assert_eq!(
        show::render_text(&report),
        "Run run-abc123\n  Workspace: platform\n  Status:    planned\n  Source:    tfe-api\n  Commit:    aaaa1111bbbb2222\n  Message:   test message\n\nPlan: 0 to add, 1 to change, 0 to destroy.\n\nResource changes:\n\n  ~ update aws_instance.web\n      instance_type: \"t3.medium\" -> \"t3.large\"\n"
    );
}

#[test]
fn full_text_of_a_create_with_output() {
    let report = show::build_report(meta(), &fixture("create.json"));
    let text = show::render_text(&report);
    assert!(
        text.ends_with(
            "\nResource changes:\n\n  + create aws_s3_bucket.assets\n      acl = \"private\"\n      arn = (known after apply)\n      bucket = \"assets\"\n\nOutput changes:\n  + bucket_name = \"assets\"\n"
        ),
        "{text}"
    );
}

#[test]
fn delete_shows_before_values() {
    let report = show::build_report(meta(), &fixture("delete.json"));
    let text = show::render_text(&report);
    assert!(text.contains("\n  - delete aws_eip.old\n      public_ip = \"203.0.113.7\"\n"), "{text}");
}

#[test]
fn grouped_by_action_order() {
    let plan = parse(
        r#"{"resource_changes":[
            {"address":"r.read","change":{"actions":["read"]}},
            {"address":"r.del","change":{"actions":["delete"]}},
            {"address":"r.new","change":{"actions":["create"]}},
            {"address":"r.rep","change":{"actions":["create","delete"]}},
            {"address":"r.up","change":{"actions":["update"]}},
            {"address":"r.new2","change":{"actions":["create"]}},
            {"address":"r.same","change":{"actions":["no-op"]}}]}"#,
    );
    let report = show::build_report(meta(), &plan);
    let order: Vec<&str> = report.resource_changes.iter().map(|r| r.address.as_str()).collect();
    assert_eq!(order, ["r.new", "r.new2", "r.up", "r.rep", "r.del", "r.read"]);
    assert_eq!((report.summary.add, report.summary.change, report.summary.destroy), (3, 1, 2));
}

#[test]
fn multi_line_message_shows_subject_only() {
    let mut m = meta();
    m.message = Some("subject line\r\n\nbody text".into());
    let report = show::build_degraded(
        m,
        &PlanRecordSummary { additions: 2, changes: -1, destructions: 0, log: None },
    );
    let text = show::render_text(&report);
    assert!(text.contains("  Message:   subject line\n"), "{text}");
    assert!(!text.contains("body text"), "{text}");
    assert!(text.contains("Plan: 2 to add, -1 to change, 0 to destroy. (summary only)\n"), "{text}");
    assert!(report.degraded);
}

#[test]
fn subject_line_follows_str_lines() {
    assert_eq!(subject_line(""), "");
    assert_eq!(subject_line("a"), "a");
    assert_eq!(subject_line("a\r"), "a\r");
    assert_eq!(subject_line("a\r\nb"), "a");
    assert_eq!(subject_line("\nb"), "");
}

#[test]
fn compact_and_redaction_helpers() {
    assert_eq!(compact(&Json::Str("(sensitive)".into())), "(sensitive)");
    assert_eq!(compact(&Json::Str("(known after apply)".into())), "(known after apply)");
    assert_eq!(compact(&Json::Str("x\"y".into())), "\"x\\\"y\"");
    assert_eq!(compact(&parse(r#"{"a":[1,true,null]}"#)), r#"{"a":[1,true,null]}"#);
    assert_eq!(path_step_to_string(&Json::Str("engine".into())), "engine");
    assert_eq!(path_step_to_string(&Json::Number("0".into())), "0");
    let secret = Json::Str("s3cret".into());
    assert!(matches!(redacted_value(Some(&secret), true, false), Json::Str(s) if s == "(sensitive)"));
    assert!(matches!(redacted_value(Some(&secret), false, true), Json::Str(s) if s == "(known after apply)"));
    assert!(matches!(redacted_value(None, true, false), Json::Null));
    assert!(matches!(redacted_value(Some(&secret), false, false), Json::Str(s) if s == "s3cret"));
}

#[test]
fn show_text_starts_with_the_run_and_marks_summary_only() {
    let report = show::build_report(meta(), &fixture("update.json"));
    let text = show::render_text(&report);
    assert!(text.starts_with("Run run-abc123\n  Workspace: platform\n"), "{text}");
    assert!(!text.contains("(summary only)"), "{text}");
    let mut m = meta();
    m.workspace = None;
    let report = show::build_degraded(
        m,
        &PlanRecordSummary { additions: 1, changes: 0, destructions: 0, log: None },
    );
    let text = show::render_text(&report);
    assert!(text.starts_with("Run run-abc123\n  Status:    planned\n"), "{text}");
    assert!(text.contains("to destroy. (summary only)\n"), "{text}");
}
