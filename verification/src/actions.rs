//! Run actions: the apply/discard/cancel requests and policy-check
//! handling. The client maps 409 to exit 6; this module adds the
//! action-specific 403 messages and the policy override protocol.

use vstd::prelude::*;
use crate::error::Error;
use crate::json::{Json, JsonV, jget, jpath, as_str_v, as_bool_v, as_array_v, items_view, lemma_items_view,
    members_view, lemma_members_view, path_get, path_str, keys_view};
use crate::text::push_str;

verus! {

/// One policy check attached to a run.
#[derive(Debug, Clone)]
pub struct PolicyCheck {
    pub id: String,
    /// `passed` | `soft_failed` | `hard_failed` | …
    pub status: String,
    /// The `can-override` permission on the check.
    pub can_override: bool,
}

/// The view of a [`PolicyCheck`].
pub struct PolicyCheckV {
    pub id: Seq<char>,
    pub status: Seq<char>,
    pub can_override: bool,
}

impl View for PolicyCheck {
    type V = PolicyCheckV;

    open spec fn view(&self) -> PolicyCheckV {
        PolicyCheckV { id: self.id@, status: self.status@, can_override: self.can_override }
    }
}

/// The policy check a document entry describes, when it has an id and a
/// status.
pub open spec fn check_of(c: JsonV) -> Option<PolicyCheckV> {
    match (as_str_v(jget(c, "id"@)), as_str_v(jpath(c, seq!["attributes"@, "status"@]))) {
        (Some(id), Some(status)) => Some(
            PolicyCheckV {
                id,
                status,
                can_override: as_bool_v(jpath(c, seq!["attributes"@, "permissions"@, "can-override"@])) == Some(true),
            },
        ),
        _ => None,
    }
}

/// The checks of a list of entries, in order, skipping incomplete ones.
pub open spec fn checks_of(cs: Seq<JsonV>) -> Seq<PolicyCheckV>
    decreases cs.len(),
{
    if cs.len() == 0 {
        Seq::empty()
    } else {
        match check_of(cs.last()) {
            Some(p) => checks_of(cs.drop_last()).push(p),
            None => checks_of(cs.drop_last()),
        }
    }
}

/// The entries of a document's `data` array.
pub open spec fn data_of(doc: JsonV) -> Seq<JsonV> {
    match as_array_v(jget(doc, "data"@)) {
        Some(a) => a,
        None => Seq::empty(),
    }
}

fn check_from(c: &Json) -> (r: Option<PolicyCheck>)
    ensures
        match r {
            Some(p) => check_of(c@) == Some(p@),
            None => check_of(c@) is None,
        },
{
    let id = match c.get("id") {
        Some(x) => match x.as_str() {
            Some(s) => Some(s.clone()),
            None => None,
        },
        None => None,
    };
    let status = path_str(c, &["attributes", "status"]);
    assert(keys_view(["attributes", "status"]@) =~= seq!["attributes"@, "status"@]);
    let can_override = match path_get(c, &["attributes", "permissions", "can-override"]) {
        Some(x) => match x.as_bool() {
            Some(b) => b,
            None => false,
        },
        None => false,
    };
    assert(keys_view(["attributes", "permissions", "can-override"]@) =~= seq![
        "attributes"@,
        "permissions"@,
        "can-override"@,
    ]);
    match (id, status) {
        (Some(id), Some(status)) => Some(PolicyCheck { id, status, can_override }),
        _ => None,
    }
}

pub open spec fn checks_view(s: Seq<PolicyCheck>) -> Seq<PolicyCheckV> {
    s.map_values(|p: PolicyCheck| p@)
}

/// The policy checks of a run's policy-checks document.
pub fn policy_checks_from(doc: &Json) -> (r: Vec<PolicyCheck>)
    ensures
        checks_view(r@) == checks_of(data_of(doc@)),
{
    let mut out: Vec<PolicyCheck> = Vec::new();
    match doc.get("data") {
        Some(d) => match d.as_array() {
            Some(items) => {
                proof {
                    lemma_items_view(items@);
                }
                let ghost iv = items_view(items@);
                let mut i: usize = 0;
                assert(checks_view(out@) =~= checks_of(iv.take(0)));
                while i < items.len()
                    invariant
                        i <= items@.len(),
                        iv == items_view(items@),
                        iv.len() == items@.len(),
                        forall|j: int| 0 <= j < items@.len() ==> #[trigger] iv[j] == items@[j]@,
                        checks_view(out@) == checks_of(iv.take(i as int)),
                    decreases items@.len() - i,
                {
                    assert(iv.take(i + 1).drop_last() =~= iv.take(i as int));
                    assert(iv.take(i + 1).last() == items@[i as int]@);
                    match check_from(&items[i]) {
                        Some(p) => {
                            let ghost before = out@;
                            out.push(p);
                            assert(checks_view(out@) =~= checks_view(before).push(p@));
                        },
                        None => {},
                    }
                    i = i + 1;
                }
                assert(iv.take(iv.len() as int) =~= iv);
            },
            None => {},
        },
        None => {},
    }
    assert(checks_view(out@) =~= checks_of(data_of(doc@))) by {
        if !(as_array_v(jget(doc@, "data"@)) is Some) {
            assert(checks_view(out@) =~= Seq::<PolicyCheckV>::empty());
        }
    }
    out
}

/// The path of a run's policy checks.
pub fn policy_checks_path(run_id: &str) -> (r: String)
    ensures
        r@ == "/api/v2/runs/"@ + run_id@ + "/policy-checks"@,
{
    let mut s = "/api/v2/runs/".to_owned();
    push_str(&mut s, run_id);
    push_str(&mut s, "/policy-checks");
    s
}

/// The path of a policy check's override action. The request has no
/// body.
pub fn override_path(policy_check_id: &str) -> (r: String)
    ensures
        r@ == "/api/v2/policy-checks/"@ + policy_check_id@ + "/actions/override"@,
{
    let mut s = "/api/v2/policy-checks/".to_owned();
    push_str(&mut s, policy_check_id);
    push_str(&mut s, "/actions/override");
    s
}

/// The message when the token may not override a policy check.
pub open spec fn override_denied_message(id: Seq<char>) -> Seq<char> {
    "the token lacks the can-override permission on policy check "@ + id
}

/// What an override request answers: a 403 names the missing
/// permission; anything else passes through.
pub fn override_outcome(response: Result<(), Error>, policy_check_id: &str) -> (r: Result<(), Error>)
    ensures
        match response {
            Ok(()) => r is Ok,
            Err(Error::Api { status, detail }) => if status == 403 {
                r matches Err(Error::Auth(m)) && m@ == override_denied_message(policy_check_id@)
            } else {
                r == Err::<(), Error>(Error::Api { status, detail })
            },
            Err(e) => r == Err::<(), Error>(e),
        },
{
    match response {
        Ok(()) => Ok(()),
        Err(Error::Api { status, detail }) => {
            if status == 403 {
                let mut m = "the token lacks the can-override permission on policy check ".to_owned();
                push_str(&mut m, policy_check_id);
                Err(Error::Auth(m))
            } else {
                Err(Error::Api { status, detail })
            }
        },
        Err(e) => Err(e),
    }
}

/// The path of a run action (`apply`, `discard`, `cancel`,
/// `force-cancel`).
pub fn run_action_path(run_id: &str, action: &str) -> (r: String)
    ensures
        r@ == "/api/v2/runs/"@ + run_id@ + "/actions/"@ + action@,
{
    let mut s = "/api/v2/runs/".to_owned();
    push_str(&mut s, run_id);
    push_str(&mut s, "/actions/");
    push_str(&mut s, action);
    s
}

/// The body of a run action: `{"comment": …}` when a comment is given,
/// no body otherwise.
pub fn run_action_body(comment: Option<&str>) -> (r: Option<Json>)
    ensures
        match comment {
            Some(c) => r matches Some(b) && b@ == JsonV::Object(seq![("comment"@, JsonV::Str(c@))]),
            None => r is None,
        },
{
    match comment {
        Some(c) => {
            let mut m: Vec<(String, Json)> = Vec::new();
            m.push(("comment".to_owned(), Json::Str(c.to_owned())));
            proof {
                lemma_members_view(m@);
                assert(members_view(m@) =~= seq![("comment"@, JsonV::Str(c@))]);
            }
            Some(Json::Object(m))
        },
        None => None,
    }
}

/// The message when the token may not act on a run.
pub open spec fn write_denied_message(action: Seq<char>, run_id: Seq<char>) -> Seq<char> {
    "the token lacks \"write\" permission on the workspace (cannot "@ + action + " run "@ + run_id + ")"@
}

/// What a run-action request answers: accepted (not finished) on
/// success; a 403 names the missing write permission; anything else
/// passes through.
pub fn run_action_outcome(response: Result<(), Error>, run_id: &str, action: &str) -> (r: Result<(), Error>)
    ensures
        match response {
            Ok(()) => r is Ok,
            Err(Error::Api { status, detail }) => if status == 403 {
                r matches Err(Error::Auth(m)) && m@ == write_denied_message(action@, run_id@)
            } else {
                r == Err::<(), Error>(Error::Api { status, detail })
            },
            Err(e) => r == Err::<(), Error>(e),
        },
{
    match response {
        Ok(()) => Ok(()),
        Err(Error::Api { status, detail }) => {
            if status == 403 {
                let mut m = "the token lacks \"write\" permission on the workspace (cannot ".to_owned();
                push_str(&mut m, action);
                push_str(&mut m, " run ");
                push_str(&mut m, run_id);
                push_str(&mut m, ")");
                Err(Error::Auth(m))
            } else {
                Err(Error::Api { status, detail })
            }
        },
        Err(e) => Err(e),
    }
}

} // verus!
