use serde_json::Value;
use tfrm::diff::{
    self, check_same_workspace, diff_exit_code, diff_target, latest_applied_from, latest_applied_path,
    DiffReport, DiffTarget, SENSITIVE_DIFFERS,
};
use tfrm::error::Error;
use tfrm::json::Json;

const SENTINEL: &str = "SENTINEL-DO-NOT-PRINT";

fn to_json(v: &Value) -> Json {
    match v {
        Value::Null => Json::Null,
        Value::Bool(b) => Json::Bool(*b),
        Value::Number(n) => Json::Number(n.to_string()),
        Value::String(s) => Json::Str(s.clone()),
        Value::Array(a) => Json::Array(a.iter().map(to_json).collect()),
        Value::Object(m) => Json::Object(m.iter().map(|(k, v)| (k.clone(), to_json(v))).collect()),
    }
}

fn from_json(j: &Json) -> Value {
    match j {
        Json::Null => Value::Null,
        Json::Bool(b) => Value::Bool(*b),
        Json::Number(n) => serde_json::from_str(n).unwrap(),
        Json::Str(s) => Value::String(s.clone()),
        Json::Array(a) => Value::Array(a.iter().map(from_json).collect()),
        Json::Object(m) => Value::Object(m.iter().map(|(k, v)| (k.clone(), from_json(v))).collect()),
    }
}

/// The `--format json` shape of a diff report.
fn report_value(r: &DiffReport) -> Value {
    let mut m = serde_json::Map::new();
    m.insert("run_a".into(), Value::String(r.run_a.clone()));
    m.insert("run_b".into(), Value::String(r.run_b.clone()));
    m.insert("only_in_a".into(), ref_list(&r.only_in_a));
    m.insert("only_in_b".into(), ref_list(&r.only_in_b));
    let differing: Vec<Value> = r
        .differing
        .iter()
        .map(|d| {
            let mut o = serde_json::Map::new();
            o.insert("address".into(), Value::String(d.address.clone()));
            o.insert("action_a".into(), Value::String(d.action_a.clone()));
            o.insert("action_b".into(), Value::String(d.action_b.clone()));
            let attrs: Vec<Value> = d
                .attributes
                .iter()
                .map(|a| {
                    let mut e = serde_json::Map::new();
                    e.insert("name".into(), Value::String(a.name.clone()));
                    let av = from_json(&a.a);
                    if !av.is_null() {
                        e.insert("a".into(), av);
                    }
                    let bv = from_json(&a.b);
                    if !bv.is_null() {
                        e.insert("b".into(), bv);
                    }
                    if a.sensitive_differs {
                        e.insert("sensitive_differs".into(), Value::Bool(true));
                    }
                    Value::Object(e)
                })
                .collect();
            o.insert("attributes".into(), Value::Array(attrs));
            Value::Object(o)
        })
        .collect();
    m.insert("differing".into(), Value::Array(differing));
    m.insert("identical_count".into(), Value::from(r.identical_count));
    if let Some(ids) = &r.identical {
        m.insert("identical".into(), Value::Array(ids.iter().map(|s| Value::String(s.clone())).collect()));
    }
    Value::Object(m)
}

fn ref_list(v: &[tfrm::diff::ResourceRef]) -> Value {
    Value::Array(
        v.iter()
            .map(|x| {
                let mut o = serde_json::Map::new();
                o.insert("address".into(), Value::String(x.address.clone()));
                o.insert("action".into(), Value::String(x.action.clone()));
                Value::Object(o)
            })
            .collect(),
    )
}

fn assert_no_sentinel(context: &str, text: &str) {
    assert!(!text.contains(SENTINEL), "redaction invariant violated in {context}:\n{text}");
}

fn fixture(name: &str) -> Json {
    let text = match name {
        "create.json" => r#"{"format_version":"1.2","resource_changes":[
            {"address":"aws_s3_bucket.assets","type":"aws_s3_bucket","name":"assets",
             "change":{"actions":["create"],"before":null,
                       "after":{"bucket":"assets","acl":"private"},
                       "after_unknown":{"arn":true,"id":true},
                       "before_sensitive":false,"after_sensitive":{}}}],
            "output_changes":{}}"#,
        "update.json" => r#"{"format_version":"1.2","resource_changes":[
            {"address":"aws_instance.web","type":"aws_instance","name":"web",
             "change":{"actions":["update"],
                       "before":{"ami":"ami-123","instance_type":"t3.medium","tags":{"Name":"web"}},
                       "after":{"ami":"ami-123","instance_type":"t3.large","tags":{"Name":"web"}},
                       "after_unknown":{},"before_sensitive":{},"after_sensitive":{}}},
            {"address":"aws_vpc.main","type":"aws_vpc","name":"main",
             "change":{"actions":["no-op"],"before":{"cidr_block":"10.0.0.0/16"},
                       "after":{"cidr_block":"10.0.0.0/16"},"after_unknown":{}}}]}"#,
        "update-b.json" => r#"{"format_version":"1.2","resource_changes":[
            {"address":"aws_instance.web","type":"aws_instance","name":"web",
             "change":{"actions":["update"],
                       "before":{"ami":"ami-123","instance_type":"t3.medium","tags":{"Name":"web"}},
                       "after":{"ami":"ami-123","instance_type":"t3.2xlarge","tags":{"Name":"web"}},
                       "after_unknown":{},"before_sensitive":{},"after_sensitive":{}}}]}"#,
        "sensitive.json" => r#"{"format_version":"1.2","resource_changes":[
            {"address":"aws_db_instance.db","type":"aws_db_instance","name":"db",
             "change":{"actions":["update"],
                       "before":{"instance_class":"db.t3.micro","password":"old-password"},
                       "after":{"instance_class":"db.t3.small","password":"SENTINEL-DO-NOT-PRINT"},
                       "after_unknown":{},
                       "before_sensitive":{"password":true},"after_sensitive":{"password":true}}}]}"#,
        "sensitive-equal.json" => r#"{"format_version":"1.2","resource_changes":[
            {"address":"aws_db_instance.db","type":"aws_db_instance","name":"db",
             "change":{"actions":["update"],
                       "before":{"instance_class":"db.t3.micro","password":"old-password"},
                       "after":{"instance_class":"db.t3.medium","password":"SENTINEL-DO-NOT-PRINT"},
                       "after_unknown":{},
                       "before_sensitive":{"password":true},"after_sensitive":{"password":true}}}]}"#,
        "sensitive-differ.json" => r#"{"format_version":"1.2","resource_changes":[
            {"address":"aws_db_instance.db","type":"aws_db_instance","name":"db",
             "change":{"actions":["update"],
                       "before":{"instance_class":"db.t3.micro","password":"old-password"},
                       "after":{"instance_class":"db.t3.small","password":"another-secret"},
                       "after_unknown":{},
                       "before_sensitive":{"password":true},"after_sensitive":{"password":true}}}]}"#,
        _ => panic!("no fixture {name}"),
    };
    to_json(&serde_json::from_str(text).unwrap())
}

#[test]
fn resources_only_in_one_plan_are_categorized() {
    // create.json changes aws_s3_bucket.assets; update.json changes
    // aws_instance.web — no overlap.
    let report = diff::diff_plans("run-a", "run-b", &fixture("create.json"), &fixture("update.json"), false);
    assert_eq!(report.only_in_a.len(), 1);
    assert_eq!(report.only_in_a[0].address, "aws_s3_bucket.assets");
    assert_eq!(report.only_in_a[0].action, "create");
    assert_eq!(report.only_in_b.len(), 1);
    assert_eq!(report.only_in_b[0].address, "aws_instance.web");
    assert!(report.differing.is_empty());
    assert!(report.has_differences());
}

#[test]
fn same_resource_with_differing_changes_shows_attribute_values() {
    let report = diff::diff_plans("run-a", "run-b", &fixture("update.json"), &fixture("update-b.json"), false);
    assert_eq!(report.differing.len(), 1);
    let d = &report.differing[0];
    assert_eq!(d.address, "aws_instance.web");
    assert_eq!(d.attributes.len(), 1);
    assert_eq!(d.attributes[0].name, "instance_type");
    assert!(matches!(&d.attributes[0].a, Json::Str(s) if s == "t3.large"));
    assert!(matches!(&d.attributes[0].b, Json::Str(s) if s == "t3.2xlarge"));

    let text = diff::render_text(&report);
    assert!(text.contains("instance_type"), "{text}");
    assert!(text.contains("t3.large"), "{text}");
    assert!(text.contains("t3.2xlarge"), "{text}");
}

#[test]
fn sensitive_equal_values_are_omitted() {
    // Passwords equal on both sides; instance_class differs. The password
    // attribute must be absent entirely.
    let report = diff::diff_plans(
        "run-a",
        "run-b",
        &fixture("sensitive.json"),
        &fixture("sensitive-equal.json"),
        false,
    );
    assert_eq!(report.differing.len(), 1);
    let d = &report.differing[0];
    let names: Vec<&str> = d.attributes.iter().map(|a| a.name.as_str()).collect();
    assert_eq!(names, ["instance_class"], "password must be omitted");

    let text = diff::render_text(&report);
    assert!(!text.contains("password"), "{text}");
    assert_no_sentinel("sensitive-equal text", &text);
    assert_no_sentinel("sensitive-equal json", &serde_json::to_string(&report_value(&report)).unwrap());
}

#[test]
fn sensitive_differing_values_show_marker_only() {
    let report = diff::diff_plans(
        "run-a",
        "run-b",
        &fixture("sensitive.json"),
        &fixture("sensitive-differ.json"),
        false,
    );
    assert_eq!(report.differing.len(), 1);
    let d = &report.differing[0];
    assert_eq!(d.attributes.len(), 1, "only the password differs");
    let attr = &d.attributes[0];
    assert_eq!(attr.name, "password");
    assert!(attr.sensitive_differs);
    assert!(attr.a.is_null() && attr.b.is_null());

    let text = diff::render_text(&report);
    assert!(text.contains(&format!("password: {SENSITIVE_DIFFERS}")), "{text}");
    assert_no_sentinel("sensitive-differ text", &text);
    let json = serde_json::to_string(&report_value(&report)).unwrap();
    assert_no_sentinel("sensitive-differ json", &json);
    // The JSON entry must carry no value fields at all.
    let parsed: Value = serde_json::from_str(&json).unwrap();
    let entry = &parsed["differing"][0]["attributes"][0];
    assert!(entry.get("a").is_none() && entry.get("b").is_none(), "{entry}");
}

#[test]
fn identical_plans_report_no_differences() {
    let report = diff::diff_plans("run-a", "run-b", &fixture("update.json"), &fixture("update.json"), false);
    assert!(!report.has_differences());
    assert_eq!(report.identical_count, 1);
    let text = diff::render_text(&report);
    assert!(text.contains("No differences."), "{text}");
}

#[test]
fn all_flag_lists_identical_addresses() {
    let report = diff::diff_plans("run-a", "run-b", &fixture("update.json"), &fixture("update.json"), true);
    assert_eq!(report.identical.as_deref(), Some(&["aws_instance.web".to_string()][..]));
}

#[test]
fn diff_is_symmetric_on_a_concrete_pair() {
    let ab = diff::diff_plans("a", "b", &fixture("create.json"), &fixture("update.json"), false);
    let ba = diff::diff_plans("b", "a", &fixture("update.json"), &fixture("create.json"), false);
    assert_eq!(ab.only_in_a[0].address, ba.only_in_b[0].address);
    assert_eq!(ab.only_in_b[0].address, ba.only_in_a[0].address);
    assert_eq!(ab.identical_count, ba.identical_count);
}

#[test]
fn diff_text_exact_for_differing_update() {
    let report = diff::diff_plans("run-a", "run-b", &fixture("update.json"), &fixture("update-b.json"), false);
    assert_eq!(
        diff::render_text(&report),
        "Diff run-a -> run-b\n\nDiffering changes:\n  ~ aws_instance.web\n      instance_type: \"t3.large\" | \"t3.2xlarge\"\n"
    );
}

#[test]
fn diff_text_counts_identical_without_all() {
    let report = diff::diff_plans("a", "b", &fixture("update.json"), &fixture("update.json"), false);
    assert_eq!(
        diff::render_text(&report),
        "Diff a -> b\n\nNo differences.\n1 resource change(s) identical in both plans.\n"
    );
}

#[test]
fn diff_text_shows_action_change_and_identical_section() {
    let a = to_json(
        &serde_json::from_str::<Value>(
            r#"{"resource_changes":[
                {"address":"a.one","change":{"actions":["create"],"after":{"x":1}}},
                {"address":"a.two","change":{"actions":["update"],"after":{"x":1}}}]}"#,
        )
        .unwrap(),
    );
    let b = to_json(
        &serde_json::from_str::<Value>(
            r#"{"resource_changes":[
                {"address":"a.one","change":{"actions":["delete","create"],"after":{"x":1}}},
                {"address":"a.two","change":{"actions":["update"],"after":{"x":1}}}]}"#,
        )
        .unwrap(),
    );
    let report = diff::diff_plans("ra", "rb", &a, &b, true);
    assert_eq!(
        diff::render_text(&report),
        "Diff ra -> rb\n\nDiffering changes:\n  ~ a.one  (action: create -> replace)\n\nIdentical in both:\n  a.two\n"
    );
    let report = diff::diff_plans("ra", "rb", &a, &b, false);
    assert_eq!(
        diff::render_text(&report),
        "Diff ra -> rb\n\nDiffering changes:\n  ~ a.one  (action: create -> replace)\n\nIdentical in both: 1 resource(s) (use --all to list)\n"
    );
}

#[test]
fn sensitive_marker_and_unknown_compare() {
    // An attribute unknown on both sides compares equal; unknown on one
    // side only differs and shows the bare marker.
    let a = to_json(
        &serde_json::from_str::<Value>(
            r#"{"resource_changes":[{"address":"x.y","change":{"actions":["create"],"after":{"ip":null},"after_unknown":{"ip":true}}}]}"#,
        )
        .unwrap(),
    );
    let b = to_json(
        &serde_json::from_str::<Value>(
            r#"{"resource_changes":[{"address":"x.y","change":{"actions":["create"],"after":{"ip":"1.2.3.4"},"after_unknown":{}}}]}"#,
        )
        .unwrap(),
    );
    let same = diff::diff_plans("a", "b", &a, &a, false);
    assert!(!same.has_differences());
    let report = diff::diff_plans("a", "b", &a, &b, false);
    let text = diff::render_text(&report);
    assert!(text.contains("      ip: (known after apply) | \"1.2.3.4\"\n"), "{text}");
}

#[test]
fn latest_applied_request_and_answer() {
    assert_eq!(
        latest_applied_path("ws-two"),
        "/api/v2/workspaces/ws-two/runs?filter%5Bstatus%5D=applied&page%5Bsize%5D=1"
    );
    let doc = to_json(
        &serde_json::from_str::<Value>(r#"{"data":[{"id":"run-applied","type":"runs","attributes":{"status":"applied"}}]}"#)
            .unwrap(),
    );
    assert_eq!(latest_applied_from(&doc, "ws-two").unwrap(), "run-applied");
    let empty = to_json(&serde_json::from_str::<Value>(r#"{"data":[]}"#).unwrap());
    let err = latest_applied_from(&empty, "ws-two").unwrap_err();
    assert_eq!(err.exit_code(), 4);
    assert_eq!(err.message(), "workspace ws-two has no applied run to diff against");
}

#[test]
fn diff_command_decisions() {
    assert!(matches!(diff_target(Some("run-b"), None), Ok(DiffTarget::Run(b)) if b == "run-b"));
    assert!(matches!(diff_target(None, Some("latest-applied")), Ok(DiffTarget::LatestApplied)));
    assert!(matches!(diff_target(None, Some("latest")), Err(Error::Usage(_))));
    assert!(matches!(diff_target(None, None), Err(Error::Usage(_))));
    let refused = check_same_workspace("run-a", "run-b", &Some("ws-one".into()), &Some("ws-two".into()), false)
        .unwrap_err();
    assert_eq!(refused.exit_code(), 2);
    assert!(refused.message().contains("--allow-cross-workspace"));
    assert!(check_same_workspace("run-a", "run-b", &Some("ws-one".into()), &Some("ws-two".into()), true).is_ok());
    let report = diff::diff_plans("a", "b", &fixture("update.json"), &fixture("update-b.json"), false);
    assert_eq!(diff_exit_code(&report, true), 1);
    assert_eq!(diff_exit_code(&report, false), 0);
    let same = diff::diff_plans("a", "b", &fixture("update.json"), &fixture("update.json"), false);
    assert_eq!(diff_exit_code(&same, true), 0);
    assert_eq!(diff::plan_json_forbidden("run-a").exit_code(), 3);
    assert!(diff::plan_json_forbidden("run-a").message().contains("workspace admin"));
}

#[test]
fn swapped_diff_swaps_actions_and_values() {
    let ab = diff::diff_plans("a", "b", &fixture("update.json"), &fixture("update-b.json"), true);
    let ba = diff::diff_plans("b", "a", &fixture("update-b.json"), &fixture("update.json"), true);
    assert_eq!(ab.differing.len(), ba.differing.len());
    for (x, y) in ab.differing.iter().zip(ba.differing.iter()) {
        assert_eq!(x.address, y.address);
        assert_eq!(x.action_a, y.action_b);
        assert_eq!(x.action_b, y.action_a);
        assert_eq!(x.attributes.len(), y.attributes.len());
        for (p, q) in x.attributes.iter().zip(y.attributes.iter()) {
            assert_eq!(p.name, q.name);
            assert_eq!(from_json(&p.a), from_json(&q.b));
            assert_eq!(from_json(&p.b), from_json(&q.a));
            assert_eq!(p.sensitive_differs, q.sensitive_differs);
        }
    }
    assert_eq!(ab.identical, ba.identical);
}

#[test]
fn diff_text_starts_with_header_and_reports_no_differences() {
    let same = diff::diff_plans("run-a", "run-b", &fixture("update.json"), &fixture("update.json"), false);
    let text = diff::render_text(&same);
    assert!(text.starts_with("Diff run-a -> run-b\n"));
    assert!(text["Diff run-a -> run-b\n".len()..].starts_with("\nNo differences.\n"));
    let other = diff::diff_plans("run-a", "run-b", &fixture("update.json"), &fixture("update-b.json"), false);
    let text = diff::render_text(&other);
    assert!(!text["Diff run-a -> run-b\n".len()..].starts_with("\nNo differences.\n"));
}

#[test]
fn latest_applied_reads_the_data_0_pointer() {
    let obj = to_json(&serde_json::from_str::<Value>(r#"{"data":{"0":{"id":"run-x"}}}"#).unwrap());
    assert_eq!(latest_applied_from(&obj, "ws").unwrap(), "run-x");
    let other = to_json(&serde_json::from_str::<Value>(r#"{"data":{"1":{"id":"run-x"}}}"#).unwrap());
    assert_eq!(latest_applied_from(&other, "ws").unwrap_err().exit_code(), 4);
    let none = to_json(&serde_json::from_str::<Value>(r#"{"data":"run-x"}"#).unwrap());
    assert_eq!(latest_applied_from(&none, "ws").unwrap_err().exit_code(), 4);
}
