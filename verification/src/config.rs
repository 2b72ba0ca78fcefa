//! Project configuration and workspace resolution.
//!
//! `.tfrm.toml` (committed project config: `org`, `hostname`,
//! `workspace`) and `.tfrm/local.toml` (the user-local selection written
//! by `tfrm workspace select`) are each found by walking from the working
//! directory towards the root. Workspace precedence: `-w` flag >
//! selection > config, with the winning source tracked.

use vstd::prelude::*;
use crate::error::Error;
use crate::text::{push_str, sview};

verus! {

/// Host used when `.tfrm.toml` names none.
pub open spec fn default_hostname() -> Seq<char> {
    "app.terraform.io"@
}

/// Contents of a discovered `.tfrm.toml`.
#[derive(Debug, Clone, Default)]
pub struct ProjectConfig {
    pub org: Option<String>,
    pub hostname: Option<String>,
    pub workspace: Option<String>,
}

/// Which source produced the resolved workspace.
#[derive(Debug, Clone, PartialEq, Eq)]
pub enum WorkspaceSource {
    /// `-w/--workspace` flag.
    Flag,
    /// Selection persisted by `tfrm workspace select` in this file.
    Selection(String),
    /// `workspace` key in this `.tfrm.toml`.
    Config(String),
}

/// How a workspace source is described to the user.
pub open spec fn workspace_source_text(s: WorkspaceSource) -> Seq<char> {
    match s {
        WorkspaceSource::Flag => "-w/--workspace flag"@,
        WorkspaceSource::Selection(p) => "selection ("@ + p@ + ")"@,
        WorkspaceSource::Config(p) => "config ("@ + p@ + ")"@,
    }
}

impl WorkspaceSource {
    /// The user-facing description of this source.
    pub fn describe(&self) -> (r: String)
        ensures
            r@ == workspace_source_text(*self),
    {
        match self {
            WorkspaceSource::Flag => "-w/--workspace flag".to_owned(),
            WorkspaceSource::Selection(p) => {
                let mut s = "selection (".to_owned();
                push_str(&mut s, p.as_str());
                push_str(&mut s, ")");
                s
            },
            WorkspaceSource::Config(p) => {
                let mut s = "config (".to_owned();
                push_str(&mut s, p.as_str());
                push_str(&mut s, ")");
                s
            },
        }
    }
}

/// Discovered project context: the nearest config file with its path,
/// the nearest selection with its file, and the directory that anchors
/// new selections.
#[derive(Debug)]
pub struct Context {
    pub config: Option<(ProjectConfig, String)>,
    pub selection: Option<(String, String)>,
    pub write_root: String,
}

/// The message when no workspace resolves: names all three sources.
pub open spec fn no_workspace_message() -> Seq<char> {
    "no workspace resolved: pass -w/--workspace <NAME>, run `tfrm workspace select <NAME>`, or set `workspace` in .tfrm.toml"@
}

/// The message when no organization resolves.
pub open spec fn no_org_message() -> Seq<char> {
    "no organization resolved: pass --org <NAME> or set `org` in .tfrm.toml"@
}

impl Context {
    /// The context for what discovery found. `config` is the parsed
    /// nearest `.tfrm.toml` with its path and directory; `selection` is
    /// the nearest `.tfrm/local.toml`'s workspace (if it names one), its
    /// path and the directory holding its `.tfrm/`. New selections are
    /// written beside the config file, else beside the existing `.tfrm/`,
    /// else in `start`.
    pub fn discovered(
        config: Option<(ProjectConfig, String, String)>,
        selection_file: Option<(Option<String>, String, String)>,
        start: String,
    ) -> (r: Context)
        ensures
            r.config == (match config {
                Some(c) => Some((c.0, c.1)),
                None => None,
            }),
            r.selection == (match selection_file {
                Some(s) => match s.0 {
                    Some(ws) => Some((ws, s.1)),
                    None => None,
                },
                None => None,
            }),
            r.write_root == (match config {
                Some(c) => c.2,
                None => match selection_file {
                    Some(s) => s.2,
                    None => start,
                },
            }),
    {
        let (cfg, cfg_dir) = match config {
            Some((c, p, d)) => (Some((c, p)), Some(d)),
            None => (None, None),
        };
        let (sel, sel_dir) = match selection_file {
            Some((ws, p, d)) => (
                match ws {
                    Some(w) => Some((w, p)),
                    None => None,
                },
                Some(d),
            ),
            None => (None, None),
        };
        let write_root = match cfg_dir {
            Some(d) => d,
            None => match sel_dir {
                Some(d) => d,
                None => start,
            },
        };
        Context { config: cfg, selection: sel, write_root }
    }

    /// Resolve the workspace: flag > selection > config; an exit-2 error
    /// naming all three sources when none resolves.
    pub fn resolve_workspace(&self, flag: Option<&str>) -> (r: Result<(String, WorkspaceSource), Error>)
        ensures
            flag is Some ==> (r matches Ok(p) && p.0@ == flag.unwrap()@ && p.1 is Flag),
            flag is None && self.selection is Some ==> (r matches Ok(p)
                && p.0@ == self.selection.unwrap().0@
                && (p.1 matches WorkspaceSource::Selection(f) && f@ == self.selection.unwrap().1@)),
            flag is None && self.selection is None && self.config is Some
                && self.config.unwrap().0.workspace is Some ==> (r matches Ok(p)
                && p.0@ == self.config.unwrap().0.workspace.unwrap()@
                && (p.1 matches WorkspaceSource::Config(f) && f@ == self.config.unwrap().1@)),
            flag is None && self.selection is None && (self.config is None
                || self.config.unwrap().0.workspace is None) ==> (r matches Err(Error::Usage(m))
                && m@ == no_workspace_message()),
    {
        match flag {
            Some(ws) => return Ok((ws.to_owned(), WorkspaceSource::Flag)),
            None => {},
        }
        match &self.selection {
            Some((ws, path)) => return Ok((ws.clone(), WorkspaceSource::Selection(path.clone()))),
            None => {},
        }
        match &self.config {
            Some((cfg, path)) => match &cfg.workspace {
                Some(ws) => return Ok((ws.clone(), WorkspaceSource::Config(path.clone()))),
                None => {},
            },
            None => {},
        }
        Err(Error::Usage(
            "no workspace resolved: pass -w/--workspace <NAME>, run `tfrm workspace select <NAME>`, or set `workspace` in .tfrm.toml".to_owned(),
        ))
    }

    /// Resolve the organization: `--org` flag over `.tfrm.toml`.
    pub fn resolve_org(&self, flag: Option<&str>) -> (r: Result<String, Error>)
        ensures
            flag is Some ==> (r matches Ok(o) && o@ == flag.unwrap()@),
            flag is None && self.config is Some && self.config.unwrap().0.org is Some ==> (r matches Ok(
                o,
            ) && o@ == self.config.unwrap().0.org.unwrap()@),
            flag is None && (self.config is None || self.config.unwrap().0.org is None) ==> (r matches Err(
                Error::Usage(m),
            ) && m@ == no_org_message()),
    {
        match flag {
            Some(org) => return Ok(org.to_owned()),
            None => {},
        }
        match &self.config {
            Some((cfg, _)) => match &cfg.org {
                Some(org) => return Ok(org.clone()),
                None => {},
            },
            None => {},
        }
        Err(Error::Usage("no organization resolved: pass --org <NAME> or set `org` in .tfrm.toml".to_owned()))
    }

    /// Hostname from `.tfrm.toml`, defaulting to `app.terraform.io`.
    pub fn hostname(&self) -> (r: String)
        ensures
            r@ == (match self.config {
                Some(c) => match c.0.hostname {
                    Some(h) => h@,
                    None => default_hostname(),
                },
                None => default_hostname(),
            }),
    {
        match &self.config {
            Some((cfg, _)) => match &cfg.hostname {
                Some(h) => return h.clone(),
                None => {},
            },
            None => {},
        }
        "app.terraform.io".to_owned()
    }
}


/// One step of the walk from the starting directory towards the root:
/// which of the two files to take from this directory, and whether the
/// walk is done.
#[derive(Debug, Clone, Copy)]
pub struct WalkStep {
    pub take_config: bool,
    pub take_selection: bool,
    pub stop: bool,
}

/// Decides a directory of the walk: the nearest `.tfrm.toml` and the
/// nearest `.tfrm/local.toml` are taken independently, each the first
/// one met; the walk stops once both are found.
pub fn walk_step(have_config: bool, have_selection: bool, config_here: bool, selection_here: bool) -> (r: WalkStep)
    ensures
        r.take_config == (!have_config && config_here),
        r.take_selection == (!have_selection && selection_here),
        r.stop == ((have_config || config_here) && (have_selection || selection_here)),
{
    let take_config = !have_config && config_here;
    let take_selection = !have_selection && selection_here;
    WalkStep {
        take_config,
        take_selection,
        stop: (have_config || take_config) && (have_selection || take_selection),
    }
}


/// The first directory from `i` on (nearest first) that holds the file
/// the flag picks out.
pub open spec fn first_holding(dirs: Seq<(bool, bool)>, i: int, config: bool) -> Option<int>
    decreases dirs.len() - i,
{
    if i < 0 || i >= dirs.len() {
        None
    } else if (if config { dirs[i].0 } else { dirs[i].1 }) {
        Some(i)
    } else {
        first_holding(dirs, i + 1, config)
    }
}

/// The walk [`walk_step`] drives over `dirs` (nearest first; each entry
/// says whether the directory holds a `.tfrm.toml` and a
/// `.tfrm/local.toml`), from directory `i` with what was taken so far:
/// the indices of the directories taken for each file.
pub open spec fn walk_run(dirs: Seq<(bool, bool)>, i: int, c: Option<int>, s: Option<int>) -> (Option<int>, Option<int>)
    decreases dirs.len() - i,
{
    if i < 0 || i >= dirs.len() {
        (c, s)
    } else {
        let c2 = if c is None && dirs[i].0 { Some(i) } else { c };
        let s2 = if s is None && dirs[i].1 { Some(i) } else { s };
        if c2 is Some && s2 is Some {
            (c2, s2)
        } else {
            walk_run(dirs, i + 1, c2, s2)
        }
    }
}

proof fn lemma_walk_run(dirs: Seq<(bool, bool)>, i: int, c: Option<int>, s: Option<int>)
    requires
        0 <= i <= dirs.len(),
        c is Some ==> first_holding(dirs, 0, true) == c,
        c is None ==> first_holding(dirs, 0, true) == first_holding(dirs, i, true),
        s is Some ==> first_holding(dirs, 0, false) == s,
        s is None ==> first_holding(dirs, 0, false) == first_holding(dirs, i, false),
    ensures
        walk_run(dirs, i, c, s) == (first_holding(dirs, 0, true), first_holding(dirs, 0, false)),
    decreases dirs.len() - i,
{
    if i < dirs.len() {
        let c2 = if c is None && dirs[i].0 { Some(i) } else { c };
        let s2 = if s is None && dirs[i].1 { Some(i) } else { s };
        if !(c2 is Some && s2 is Some) {
            lemma_walk_run(dirs, i + 1, c2, s2);
        }
    }
}

/// Law (discovery): walking from the working directory towards the root,
/// the configuration taken is the nearest directory's `.tfrm.toml` and
/// the selection taken is the nearest directory's `.tfrm/local.toml`,
/// each found independently of the other.
pub proof fn law_discovery_takes_the_nearest(dirs: Seq<(bool, bool)>)
    ensures
        walk_run(dirs, 0, None, None) == (first_holding(dirs, 0, true), first_holding(dirs, 0, false)),
{
    lemma_walk_run(dirs, 0, None, None);
}

} // verus!
