//! Workspaces listing, read from JSON:API documents, with each
//! workspace's current-run status resolved through `included`.

use vstd::prelude::*;
use crate::error::Error;
use crate::json::{Json, JsonV, jget, jpath, opath, as_str_v, opt_view, path_str, keys_view, items_view};
use crate::runs::{find_by, rel_id, attr_of, or_empty, json_or_null, find_resource_by, attribute, relationship_id};
use crate::table::{render, table_text};
use crate::text::{push_str, sview};

verus! {

/// One row of `workspace list`.
#[derive(Debug, Clone)]
pub struct WorkspaceRow {
    pub name: String,
    /// Status of the workspace's current run, when one exists.
    pub current_run_status: Option<String>,
    /// VCS repo identifier (e.g. `org/repo`) when VCS-connected.
    pub vcs_repo: Option<String>,
    pub latest_change_at: Option<String>,
    /// True for the currently selected workspace.
    pub selected: bool,
}

/// The view of a [`WorkspaceRow`].
pub struct WorkspaceRowV {
    pub name: Seq<char>,
    pub current_run_status: Option<Seq<char>>,
    pub vcs_repo: Option<Seq<char>>,
    pub latest_change_at: Option<Seq<char>>,
    pub selected: bool,
}

impl View for WorkspaceRow {
    type V = WorkspaceRowV;

    open spec fn view(&self) -> WorkspaceRowV {
        WorkspaceRowV {
            name: self.name@,
            current_run_status: sview(self.current_run_status),
            vcs_repo: sview(self.vcs_repo),
            latest_change_at: sview(self.latest_change_at),
            selected: self.selected,
        }
    }
}

pub open spec fn ws_rows_view(s: Seq<WorkspaceRow>) -> Seq<WorkspaceRowV> {
    s.map_values(|r: WorkspaceRow| r@)
}

/// The row of one workspace document; `selected` names the workspace
/// in effect, if any.
pub open spec fn workspace_row(ws: JsonV, included: Seq<JsonV>, selected: Option<Seq<char>>) -> WorkspaceRowV {
    let name = or_empty(attr_of(ws, "name"@));
    let run = find_by(included, "runs"@, rel_id(Some(ws), "current-run"@));
    WorkspaceRowV {
        name,
        current_run_status: as_str_v(opath(run, seq!["attributes"@, "status"@])),
        vcs_repo: as_str_v(jpath(ws, seq!["attributes"@, "vcs-repo"@, "identifier"@])),
        latest_change_at: attr_of(ws, "latest-change-at"@),
        selected: selected == Some(name),
    }
}

/// The row of one workspace document.
pub fn workspace_row_of(ws: &Json, included: &Vec<Json>, selected: Option<&str>) -> (r: WorkspaceRow)
    ensures
        r@ == workspace_row(ws@, items_view(included@), match selected {
            Some(s) => Some(s@),
            None => None,
        }),
{
    let name = match attribute(ws, "name") {
        Some(n) => n,
        None => String::new(),
    };
    let run_id = relationship_id(Some(ws), "current-run");
    let run = find_resource_by(included, "runs", &run_id);
    let current_run_status = match run {
        Some(x) => {
            let r = path_str(x, &["attributes", "status"]);
            assert(keys_view(["attributes", "status"]@) =~= seq!["attributes"@, "status"@]);
            r
        },
        None => None,
    };
    let vcs_repo = path_str(ws, &["attributes", "vcs-repo", "identifier"]);
    assert(keys_view(["attributes", "vcs-repo", "identifier"]@) =~= seq!["attributes"@, "vcs-repo"@, "identifier"@]);
    let is_selected = match selected {
        Some(s) => s.to_owned() == name,
        None => false,
    };
    WorkspaceRow {
        name,
        current_run_status,
        vcs_repo,
        latest_change_at: attribute(ws, "latest-change-at"),
        selected: is_selected,
    }
}

/// The rows of a page of workspace documents, in order.
pub fn workspace_rows(data: &Vec<Json>, included: &Vec<Json>, selected: Option<&str>) -> (r: Vec<WorkspaceRow>)
    ensures
        r@.len() == data@.len(),
        forall|i: int|
            0 <= i < data@.len() ==> #[trigger] r@[i]@ == workspace_row(data@[i]@, items_view(included@), match selected {
                Some(s) => Some(s@),
                None => None,
            }),
{
    let mut out: Vec<WorkspaceRow> = Vec::new();
    let mut i: usize = 0;
    while i < data.len()
        invariant
            i <= data@.len(),
            out@.len() == i,
            forall|j: int|
                0 <= j < i ==> #[trigger] out@[j]@ == workspace_row(data@[j]@, items_view(included@), match selected {
                    Some(s) => Some(s@),
                    None => None,
                }),
        decreases data@.len() - i,
    {
        out.push(workspace_row_of(&data[i], included, selected));
        i = i + 1;
    }
    out
}

/// The collection path of an organization's workspaces.
pub fn workspaces_path(org: &str) -> (r: String)
    ensures
        r@ == "/api/v2/organizations/"@ + org@ + "/workspaces"@,
{
    let mut s = "/api/v2/organizations/".to_owned();
    push_str(&mut s, org);
    push_str(&mut s, "/workspaces");
    s
}

/// The path of one workspace by name.
pub fn workspace_path(org: &str, name: &str) -> (r: String)
    ensures
        r@ == "/api/v2/organizations/"@ + org@ + "/workspaces/"@ + name@,
{
    let mut s = "/api/v2/organizations/".to_owned();
    push_str(&mut s, org);
    push_str(&mut s, "/workspaces/");
    push_str(&mut s, name);
    s
}

/// The message for a workspace the organization does not have.
pub open spec fn not_found_message(org: Seq<char>, name: Seq<char>) -> Seq<char> {
    "workspace "@ + name + " not found in organization "@ + org
}

/// What a workspace lookup answers: the document's `data` (null when
/// absent); a 404 becomes not-found naming the workspace and the
/// organization; any other error passes through.
pub fn workspace_lookup(response: Result<Json, Error>, org: &str, name: &str) -> (r: Result<Json, Error>)
    ensures
        match response {
            Ok(doc) => r matches Ok(d) && d@ == json_or_null(jget(doc@, "data"@)),
            Err(Error::Api { status, detail }) => if status == 404 {
                r matches Err(Error::NotFound(m)) && m@ == not_found_message(org@, name@)
            } else {
                r == Err::<Json, Error>(Error::Api { status, detail })
            },
            Err(e) => r == Err::<Json, Error>(e),
        },
{
    match response {
        Ok(doc) => Ok(
            match doc.get("data") {
                Some(d) => d.deep_clone(),
                None => Json::Null,
            },
        ),
        Err(Error::Api { status, detail }) => {
            if status == 404 {
                let mut m = "workspace ".to_owned();
                push_str(&mut m, name);
                push_str(&mut m, " not found in organization ");
                push_str(&mut m, org);
                Err(Error::NotFound(m))
            } else {
                Err(Error::Api { status, detail })
            }
        },
        Err(e) => Err(e),
    }
}

/// The table cells of one workspace: the selected marker, name, run
/// status, VCS repo and latest change.
pub open spec fn workspace_cells(r: WorkspaceRowV) -> Seq<Seq<char>> {
    seq![
        if r.selected { "*"@ } else { Seq::empty() },
        r.name,
        or_empty(r.current_run_status),
        or_empty(r.vcs_repo),
        or_empty(r.latest_change_at),
    ]
}

/// The headers of the workspaces table.
pub open spec fn workspace_headers() -> Seq<Seq<char>> {
    seq![""@, "NAME"@, "RUN STATUS"@, "VCS REPO"@, "LATEST CHANGE"@]
}

fn opt_or_empty(s: &Option<String>) -> (r: String)
    ensures
        r@ == or_empty(sview(*s)),
{
    match s {
        Some(x) => x.clone(),
        None => String::new(),
    }
}

/// Renders the workspaces table.
pub fn render_workspaces(rows: &Vec<WorkspaceRow>) -> (r: String)
    ensures
        r@ == table_text(workspace_headers(), ws_rows_view(rows@).map_values(|w: WorkspaceRowV| workspace_cells(w))),
{
    let ghost rv = ws_rows_view(rows@);
    let mut cells: Vec<Vec<String>> = Vec::new();
    let mut i: usize = 0;
    while i < rows.len()
        invariant
            i <= rows@.len(),
            rv == ws_rows_view(rows@),
            rv.len() == rows@.len(),
            cells@.len() == i,
            forall|j: int| 0 <= j < i ==> (#[trigger] cells@[j])@.len() == 5,
            forall|j: int| 0 <= j < i ==> (#[trigger] cells@[j])@.map_values(|c: String| c@) == workspace_cells(rv[j]),
        decreases rows@.len() - i,
    {
        let w = &rows[i];
        let mut c: Vec<String> = Vec::new();
        c.push(if w.selected { "*".to_owned() } else { String::new() });
        c.push(w.name.clone());
        c.push(opt_or_empty(&w.current_run_status));
        c.push(opt_or_empty(&w.vcs_repo));
        c.push(opt_or_empty(&w.latest_change_at));
        assert(c@.map_values(|x: String| x@) =~= workspace_cells(rv[i as int]));
        cells.push(c);
        i = i + 1;
    }
    let headers = ["", "NAME", "RUN STATUS", "VCS REPO", "LATEST CHANGE"];
    let out = render(&headers, cells.as_slice());
    proof {
        assert(headers@.map_values(|h: &str| h@) =~= workspace_headers());
        assert(crate::table::rows_view(cells@) =~= rv.map_values(|w: WorkspaceRowV| workspace_cells(w)));
    }
    out
}


/// The API id of a workspace document, or an unexpected error naming the
/// workspace when the response has none.
pub fn workspace_id_of(data: &Json, name: &str) -> (r: Result<String, Error>)
    ensures
        match as_str_v(jget(data@, "id"@)) {
            Some(id) => r matches Ok(s) && s@ == id,
            None => r matches Err(Error::Other(m)) && m@ == "workspace "@ + name@ + ": response missing id"@,
        },
{
    match data.get("id") {
        Some(i) => match i.as_str() {
            Some(s) => return Ok(s.clone()),
            None => {},
        },
        None => {},
    }
    let mut m = "workspace ".to_owned();
    push_str(&mut m, name);
    push_str(&mut m, ": response missing id");
    Err(Error::Other(m))
}

} // verus!
