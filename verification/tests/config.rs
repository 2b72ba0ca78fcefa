use tfrm::cli::current_message;
use tfrm::config::{walk_step, Context, ProjectConfig, WorkspaceSource};

fn config(org: Option<&str>, hostname: Option<&str>, workspace: Option<&str>) -> ProjectConfig {
    ProjectConfig {
        org: org.map(String::from),
        hostname: hostname.map(String::from),
        workspace: workspace.map(String::from),
    }
}

/// The context discovery yields for a project directory `/p` with the
/// given `.tfrm.toml` and `.tfrm/local.toml` selection.
fn ctx(cfg: Option<ProjectConfig>, selection: Option<&str>) -> Context {
    Context::discovered(
        cfg.map(|c| (c, "/p/.tfrm.toml".to_string(), "/p".to_string())),
        selection.map(|s| (Some(s.to_string()), "/p/.tfrm/local.toml".to_string(), "/p".to_string())),
        "/p".to_string(),
    )
}

#[test]
fn flag_beats_selection_and_config() {
    let ctx = ctx(Some(config(Some("acme"), None, Some("from-config"))), Some("from-selection"));
    let (ws, source) = ctx.resolve_workspace(Some("from-flag")).unwrap();
    assert_eq!(ws, "from-flag");
    assert_eq!(source, WorkspaceSource::Flag);
}

#[test]
fn selection_beats_config() {
    let ctx = ctx(Some(config(None, None, Some("from-config"))), Some("from-selection"));
    let (ws, source) = ctx.resolve_workspace(None).unwrap();
    assert_eq!(ws, "from-selection");
    assert!(matches!(source, WorkspaceSource::Selection(_)));
}

#[test]
fn config_workspace_used_last() {
    let ctx = ctx(Some(config(None, None, Some("from-config"))), None);
    let (ws, source) = ctx.resolve_workspace(None).unwrap();
    assert_eq!(ws, "from-config");
    assert!(matches!(source, WorkspaceSource::Config(_)));
}

#[test]
fn none_resolves_names_all_three_sources() {
    let ctx = ctx(None, None);
    let err = ctx.resolve_workspace(None).unwrap_err();
    assert_eq!(err.exit_code(), 2);
    let msg = err.message();
    assert!(msg.contains("-w/--workspace"), "{msg}");
    assert!(msg.contains("workspace select"), "{msg}");
    assert!(msg.contains(".tfrm.toml"), "{msg}");
}

#[test]
fn hostname_from_config_overrides_default() {
    let ctx = ctx(Some(config(Some("acme"), Some("tfe.example.com"), None)), None);
    assert_eq!(ctx.hostname(), "tfe.example.com");
    let ctx2 = Context::discovered(None, None, "/p".into());
    assert_eq!(ctx2.hostname(), "app.terraform.io");
}

#[test]
fn org_flag_overrides_config() {
    let ctx = ctx(Some(config(Some("acme"), None, None)), None);
    assert_eq!(ctx.resolve_org(Some("other")).unwrap(), "other");
    assert_eq!(ctx.resolve_org(None).unwrap(), "acme");
}

#[test]
fn missing_org_is_usage_error() {
    let ctx = ctx(None, None);
    let err = ctx.resolve_org(None).unwrap_err();
    assert_eq!(err.exit_code(), 2);
    assert!(err.message().contains("--org"), "{}", err.message());
}

#[test]
fn write_root_prefers_the_config_directory() {
    let c = Context::discovered(
        Some((config(None, None, None), "/p/.tfrm.toml".into(), "/p".into())),
        Some((None, "/p/sub/.tfrm/local.toml".into(), "/p/sub".into())),
        "/p/sub/deeper".into(),
    );
    assert_eq!(c.write_root, "/p");
    assert!(c.selection.is_none());
    let c = Context::discovered(None, Some((None, "/q/.tfrm/local.toml".into(), "/q".into())), "/q/x".into());
    assert_eq!(c.write_root, "/q");
    let c = Context::discovered(None, None, "/r".into());
    assert_eq!(c.write_root, "/r");
}

#[test]
fn walk_takes_the_nearest_of_each_and_stops_when_both_found() {
    let s = walk_step(false, false, true, false);
    assert!(s.take_config && !s.take_selection && !s.stop);
    let s = walk_step(true, false, true, true);
    assert!(!s.take_config && s.take_selection && s.stop);
    let s = walk_step(false, false, false, false);
    assert!(!s.take_config && !s.take_selection && !s.stop);
}

#[test]
fn source_descriptions() {
    assert_eq!(WorkspaceSource::Flag.describe(), "-w/--workspace flag");
    assert_eq!(WorkspaceSource::Selection("/p/.tfrm/local.toml".into()).describe(), "selection (/p/.tfrm/local.toml)");
    assert_eq!(WorkspaceSource::Config("/p/.tfrm.toml".into()).describe(), "config (/p/.tfrm.toml)");
}

#[test]
fn current_names_the_selection_after_select() {
    let ctx = ctx(Some(config(Some("acme"), None, Some("cfg-ws"))), Some("picked-ws"));
    let (ws, source) = ctx.resolve_workspace(None).unwrap();
    let out = current_message(&ws, &source);
    assert!(out.contains("picked-ws"), "{out}");
    assert!(out.contains("selection"), "{out}");
}

#[test]
fn current_prefers_the_flag() {
    let ctx = ctx(Some(config(None, None, Some("cfg-ws"))), None);
    let (ws, source) = ctx.resolve_workspace(Some("flag-ws")).unwrap();
    let out = current_message(&ws, &source);
    assert!(out.contains("flag-ws"), "{out}");
    assert!(out.contains("flag"), "{out}");
}

#[test]
fn current_with_nothing_resolvable_exits_2_naming_sources() {
    let ctx = Context::discovered(None, None, "/p".to_string());
    let err = ctx.resolve_workspace(None).unwrap_err();
    assert_eq!(err.exit_code(), 2);
    let msg = err.message();
    assert!(msg.contains("-w/--workspace"), "{msg}");
    assert!(msg.contains("workspace select"), "{msg}");
    assert!(msg.contains(".tfrm.toml"), "{msg}");
}

/// Walk from `start` up through `dirs` (nearest first) the way discovery
/// does, where `configs` and `selections` say which directories hold a
/// `.tfrm.toml` and a `.tfrm/local.toml`.
fn walk(dirs: &[&str], configs: &[&str], selections: &[&str]) -> (Option<String>, Option<String>) {
    let (mut config, mut selection) = (None, None);
    for d in dirs {
        let step = walk_step(config.is_some(), selection.is_some(), configs.contains(d), selections.contains(d));
        if step.take_config {
            config = Some(d.to_string());
        }
        if step.take_selection {
            selection = Some(d.to_string());
        }
        if step.stop {
            break;
        }
    }
    (config, selection)
}

#[test]
fn discovery_walks_to_ancestors() {
    let (config_dir, selection_dir) = walk(&["/p/a/b/c", "/p/a/b", "/p/a", "/p", "/"], &["/p"], &[]);
    assert_eq!(config_dir.as_deref(), Some("/p"));
    assert!(selection_dir.is_none());
    let ctx = Context::discovered(
        Some((config(Some("acme"), None, None), "/p/.tfrm.toml".into(), "/p".into())),
        None,
        "/p/a/b/c".into(),
    );
    assert_eq!(ctx.resolve_org(None).unwrap(), "acme");
    assert_eq!(ctx.hostname(), "app.terraform.io");
}

#[test]
fn selection_written_beside_config_from_a_subdir() {
    let (config_dir, _) = walk(&["/p/modules/net", "/p/modules", "/p", "/"], &["/p"], &[]);
    assert_eq!(config_dir.as_deref(), Some("/p"));
    let ctx = Context::discovered(
        Some((config(Some("acme"), None, None), "/p/.tfrm.toml".into(), "/p".into())),
        None,
        "/p/modules/net".into(),
    );
    assert_eq!(format!("{}/.tfrm/local.toml", ctx.write_root), "/p/.tfrm/local.toml");
}
