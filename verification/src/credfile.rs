//! Read-modify-write of the `credentials.tfrc.json` document, the same
//! file terraform reads and writes, so credentials flow both ways. The
//! document is parsed and changed here; reading and writing the file is the
//! caller's part.

use vstd::prelude::*;
use crate::error::Error;
use crate::json::{Json, JsonV, json_parse_result, parse_json_text, jget, as_object_v, as_str_v, member_get, members_view, lemma_members_view};
use crate::credentials::{normalize_host, normalized_host, json_entries, json_doc_entries};
use crate::text::push_str;

verus! {

/// The members of `m` not named `key`, in order.
pub open spec fn without(m: Seq<(Seq<char>, JsonV)>, key: Seq<char>) -> Seq<(Seq<char>, JsonV)>
    decreases m.len(),
{
    if m.len() == 0 {
        Seq::empty()
    } else if m.last().0 == key {
        without(m.drop_last(), key)
    } else {
        without(m.drop_last(), key).push(m.last())
    }
}

/// The members with `key` set to `value`: every member of that name
/// dropped, the new one appended.
pub open spec fn set_member(m: Seq<(Seq<char>, JsonV)>, key: Seq<char>, value: JsonV) -> Seq<(Seq<char>, JsonV)> {
    without(m, key).push((key, value))
}

/// Dropping a name leaves every other name's value and removes it.
pub proof fn lemma_without_get(m: Seq<(Seq<char>, JsonV)>, key: Seq<char>, k: Seq<char>)
    ensures
        member_get(without(m, key), k) == (if k == key {
            None
        } else {
            member_get(m, k)
        }),
    decreases m.len(),
{
    if m.len() > 0 {
        lemma_without_get(m.drop_last(), key, k);
        let w = without(m.drop_last(), key);
        if m.last().0 != key {
            assert(w.push(m.last()).drop_last() =~= w);
            assert(w.push(m.last()).last() == m.last());
        }
    }
}

/// After setting a name, it holds the new value and every other name
/// keeps its own.
pub proof fn lemma_set_member_get(m: Seq<(Seq<char>, JsonV)>, key: Seq<char>, value: JsonV, k: Seq<char>)
    ensures
        member_get(set_member(m, key, value), k) == (if k == key {
            Some(value)
        } else {
            member_get(m, k)
        }),
{
    let w = without(m, key);
    assert(set_member(m, key, value).drop_last() =~= w);
    lemma_without_get(m, key, k);
}

/// The entry stored for a host: `{"token": <token>}`.
pub open spec fn token_entry(token: Seq<char>) -> JsonV {
    JsonV::Object(seq![("token"@, JsonV::Str(token))])
}

/// The credentials members of a document (none unless it holds a
/// `credentials` object).
pub open spec fn creds_of(doc: JsonV) -> Seq<(Seq<char>, JsonV)> {
    match as_object_v(jget(doc, "credentials"@)) {
        Some(m) => m,
        None => Seq::empty(),
    }
}

/// The members of a document that is an object (none for null).
pub open spec fn doc_members(doc: JsonV) -> Seq<(Seq<char>, JsonV)> {
    match doc {
        JsonV::Object(m) => m,
        _ => Seq::empty(),
    }
}

/// The document after storing `token` for `host`: its `credentials`
/// object (created when missing or not an object) holds `host` with the
/// token; everything else stays.
pub open spec fn stored(doc: JsonV, host: Seq<char>, token: Seq<char>) -> JsonV {
    JsonV::Object(set_member(doc_members(doc), "credentials"@, JsonV::Object(set_member(creds_of(doc), host, token_entry(token)))))
}

/// The document after removing `host` from its `credentials` object.
pub open spec fn removed(doc: JsonV, host: Seq<char>) -> JsonV {
    JsonV::Object(set_member(doc_members(doc), "credentials"@, JsonV::Object(without(creds_of(doc), host))))
}

/// The document a missing file stands for: `{"credentials": {}}`.
pub fn empty_credentials_doc() -> (r: Json)
    ensures
        r@ == JsonV::Object(seq![("credentials"@, JsonV::Object(Seq::empty()))]),
{
    let inner: Vec<(String, Json)> = Vec::new();
    assert(members_view(inner@) =~= Seq::<(Seq<char>, JsonV)>::empty());
    let inner_json = Json::Object(inner);
    assert(inner_json@ == JsonV::Object(Seq::empty()));
    let mut members: Vec<(String, Json)> = Vec::new();
    members.push(("credentials".to_owned(), inner_json));
    proof {
        lemma_members_view(members@);
        assert(members_view(members@) =~= seq![("credentials"@, JsonV::Object(Seq::empty()))]);
    }
    Json::Object(members)
}

/// The message for a credentials file that does not parse.
pub open spec fn invalid_json_message(path: Seq<char>, e: Seq<char>) -> Seq<char> {
    "invalid JSON in "@ + path + ": "@ + e
}

/// The credentials document from the file's text (`None` when the file
/// does not exist, which stands for the empty document); a text that
/// does not parse is an error naming the file.
pub fn load_doc(text: Option<&str>, path: &str) -> (r: Result<Json, Error>)
    ensures
        match text {
            None => r matches Ok(d) && d@ == JsonV::Object(seq![("credentials"@, JsonV::Object(Seq::empty()))]),
            Some(t) => match json_parse_result(t@) {
                Ok(d) => r matches Ok(x) && x@ == d,
                Err(e) => r matches Err(Error::Other(m)) && m@ == invalid_json_message(path@, e),
            },
        },
{
    match text {
        None => Ok(empty_credentials_doc()),
        Some(t) => match parse_json_text(t) {
            Ok(d) => Ok(d),
            Err(e) => {
                let mut m = "invalid JSON in ".to_owned();
                push_str(&mut m, path);
                push_str(&mut m, ": ");
                push_str(&mut m, e.as_str());
                Err(Error::Other(m))
            },
        },
    }
}

/// Copies the members not named `key`.
fn drop_members(members: &Vec<(String, Json)>, key: &str) -> (r: Vec<(String, Json)>)
    ensures
        members_view(r@) == without(members_view(members@), key@),
{
    proof {
        lemma_members_view(members@);
    }
    let ghost mv = members_view(members@);
    let k = key.to_owned();
    let mut out: Vec<(String, Json)> = Vec::new();
    assert(members_view(out@) =~= without(mv.take(0), key@));
    let mut i: usize = 0;
    while i < members.len()
        invariant
            i <= members@.len(),
            mv == members_view(members@),
            mv.len() == members@.len(),
            forall|j: int| 0 <= j < members@.len() ==> #[trigger] mv[j] == (members@[j].0@, members@[j].1@),
            k@ == key@,
            members_view(out@) == without(mv.take(i as int), key@),
        decreases members@.len() - i,
    {
        assert(mv.take(i + 1).drop_last() =~= mv.take(i as int));
        assert(mv.take(i + 1).last() == (members@[i as int].0@, members@[i as int].1@));
        if members[i].0 != k {
            let ghost before = out@;
            let name = members[i].0.clone();
            let value = members[i].1.deep_clone();
            out.push((name, value));
            proof {
                lemma_members_view(out@);
                lemma_members_view(before);
                assert(members_view(out@) =~= members_view(before).push((members@[i as int].0@, members@[i as int].1@)));
            }
        }
        i = i + 1;
    }
    assert(mv.take(members@.len() as int) =~= mv);
    out
}

/// Sets member `key` of an object's members to `value`.
fn set_member_vec(members: &Vec<(String, Json)>, key: &str, value: Json) -> (r: Vec<(String, Json)>)
    ensures
        members_view(r@) == set_member(members_view(members@), key@, value@),
{
    let mut out = drop_members(members, key);
    let ghost before = out@;
    out.push((key.to_owned(), value));
    proof {
        lemma_members_view(out@);
        lemma_members_view(before);
        assert(members_view(out@) =~= members_view(before).push((key@, value@)));
    }
    out
}

/// Takes the members out of an object (none for any other value).
fn take_members(v: Json) -> (r: Vec<(String, Json)>)
    ensures
        members_view(r@) == match v@ {
            JsonV::Object(m) => m,
            _ => Seq::empty(),
        },
{
    match v {
        Json::Object(m) => m,
        _ => {
            let e: Vec<(String, Json)> = Vec::new();
            assert(members_view(e@) =~= Seq::<(Seq<char>, JsonV)>::empty());
            e
        },
    }
}

/// The `credentials` object of a document, taken out (empty when it is
/// missing or not an object).
fn take_credentials(doc: &Json) -> (r: Vec<(String, Json)>)
    ensures
        members_view(r@) == creds_of(doc@),
{
    match doc.get("credentials") {
        Some(c) => match c.as_object() {
            Some(_) => take_members(c.deep_clone()),
            None => {
                let e: Vec<(String, Json)> = Vec::new();
                assert(members_view(e@) =~= Seq::<(Seq<char>, JsonV)>::empty());
                e
            },
        },
        None => {
            let e: Vec<(String, Json)> = Vec::new();
            assert(members_view(e@) =~= Seq::<(Seq<char>, JsonV)>::empty());
            e
        },
    }
}

/// Stores `token` for the (already normalized) `host`, preserving every
/// other host's entry and every other member of the document. The
/// document is an object, or null for an empty one.
pub fn store_in_doc(doc: Json, host: &str, token: &str) -> (r: Json)
    requires
        doc@ is Object || doc@ is Null,
    ensures
        r@ == stored(doc@, host@, token@),
{
    let creds = take_credentials(&doc);
    let mut entry: Vec<(String, Json)> = Vec::new();
    entry.push(("token".to_owned(), Json::Str(token.to_owned())));
    proof {
        lemma_members_view(entry@);
        assert(members_view(entry@) =~= seq![("token"@, JsonV::Str(token@))]);
    }
    let entry_json = Json::Object(entry);
    assert(entry_json@ == token_entry(token@));
    let creds2 = set_member_vec(&creds, host, entry_json);
    let members = take_members(doc);
    let members2 = set_member_vec(&members, "credentials", Json::Object(creds2));
    Json::Object(members2)
}

/// Removes the (already normalized) `host` from the document's
/// `credentials` object. False, with the document unchanged, when the
/// host had no entry (so for any document that is not an object).
pub fn remove_from_doc(doc: Json, host: &str) -> (r: (Json, bool))
    ensures
        r.1 == (member_get(creds_of(doc@), host@) is Some),
        r.1 ==> r.0@ == removed(doc@, host@),
        !r.1 ==> r.0@ == doc@,
{
    let present = match doc.get("credentials") {
        Some(c) => c.get(host).is_some(),
        None => false,
    };
    if !present {
        return (doc, false);
    }
    let creds = take_credentials(&doc);
    let creds2 = drop_members(&creds, host);
    let members = take_members(doc);
    let members2 = set_member_vec(&members, "credentials", Json::Object(creds2));
    (Json::Object(members2), true)
}

/// The message for a hostname that does not normalize.
pub open spec fn invalid_hostname_message(host: Seq<char>) -> Seq<char> {
    "invalid hostname: "@ + host
}

/// Stores `token` for `host` in its normalized form; an invalid host is
/// a usage error.
pub fn store(doc: Json, host: &str, token: &str) -> (r: Result<Json, Error>)
    requires
        normalized_host(host@) is Some ==> (doc@ is Object || doc@ is Null),
    ensures
        match normalized_host(host@) {
            Some(h) => r matches Ok(d) && d@ == stored(doc@, h, token@),
            None => r matches Err(Error::Usage(m)) && m@ == invalid_hostname_message(host@),
        },
{
    match normalize_host(host) {
        Some(h) => Ok(store_in_doc(doc, h.as_str(), token)),
        None => {
            let mut m = "invalid hostname: ".to_owned();
            push_str(&mut m, host);
            Err(Error::Usage(m))
        },
    }
}

/// Removes `host`'s entry, by its normalized form. Answers whether there
/// was one; an invalid host is a usage error.
pub fn remove(doc: Json, host: &str) -> (r: Result<(Json, bool), Error>)
    ensures
        match normalized_host(host@) {
            Some(h) => r matches Ok(p) && p.1 == (member_get(creds_of(doc@), h) is Some) && (p.1 ==> p.0@ == removed(
                doc@,
                h,
            )) && (!p.1 ==> p.0@ == doc@),
            None => r matches Err(Error::Usage(m)) && m@ == invalid_hostname_message(host@),
        },
{
    match normalize_host(host) {
        Some(h) => Ok(remove_from_doc(doc, h.as_str())),
        None => {
            let mut m = "invalid hostname: ".to_owned();
            push_str(&mut m, host);
            Err(Error::Usage(m))
        },
    }
}

/// The token the last entry for `host` carries.
pub open spec fn entries_token(entries: Seq<(Seq<char>, Seq<char>, Seq<char>)>, host: Seq<char>) -> Option<Seq<char>>
    decreases entries.len(),
{
    if entries.len() == 0 {
        None
    } else if entries.last().0 == host {
        Some(entries.last().1)
    } else {
        entries_token(entries.drop_last(), host)
    }
}

/// Law: storing a token for a host preserves every other host's entry
/// and every other member of the document, and the stored entry is the
/// host's token.
pub proof fn law_store_preserves_others(doc: JsonV, host: Seq<char>, token: Seq<char>, other: Seq<char>, key: Seq<char>)
    requires
        other != host,
        key != "credentials"@,
    ensures
        member_get(creds_of(stored(doc, host, token)), host) == Some(token_entry(token)),
        member_get(creds_of(stored(doc, host, token)), other) == member_get(creds_of(doc), other),
        jget(stored(doc, host, token), key) == member_get(doc_members(doc), key),
{
    let c = JsonV::Object(set_member(creds_of(doc), host, token_entry(token)));
    lemma_set_member_get(doc_members(doc), "credentials"@, c, "credentials"@);
    lemma_set_member_get(doc_members(doc), "credentials"@, c, key);
    lemma_set_member_get(creds_of(doc), host, token_entry(token), host);
    lemma_set_member_get(creds_of(doc), host, token_entry(token), other);
}

/// Law: removing a host deletes only that host's entry.
pub proof fn law_remove_only_target(doc: JsonV, host: Seq<char>, other: Seq<char>)
    requires
        other != host,
    ensures
        member_get(creds_of(removed(doc, host)), host) is None,
        member_get(creds_of(removed(doc, host)), other) == member_get(creds_of(doc), other),
{
    let c = JsonV::Object(without(creds_of(doc), host));
    lemma_set_member_get(doc_members(doc), "credentials"@, c, "credentials"@);
    lemma_without_get(creds_of(doc), host, host);
    lemma_without_get(creds_of(doc), host, other);
}

/// Law: after a store, removing the same host finds the entry.
pub proof fn law_store_then_remove_finds(doc: JsonV, host: Seq<char>, token: Seq<char>)
    ensures
        member_get(creds_of(stored(doc, host, token)), host) is Some,
{
    let c = JsonV::Object(set_member(creds_of(doc), host, token_entry(token)));
    lemma_set_member_get(doc_members(doc), "credentials"@, c, "credentials"@);
    lemma_set_member_get(creds_of(doc), host, token_entry(token), host);
}

/// Law: the credential reader finds the stored token: reading the stored
/// document yields, as the last entry for the host, the token just
/// stored, provided the host is already in its normalized form.
pub proof fn law_store_then_read(doc: JsonV, host: Seq<char>, token: Seq<char>, path: Seq<char>)
    requires
        normalized_host(host) == Some(host),
    ensures
        entries_token(json_doc_entries(stored(doc, host, token), path), host) == Some(token),
{
    let s = stored(doc, host, token);
    let c = set_member(creds_of(doc), host, token_entry(token));
    lemma_set_member_get(doc_members(doc), "credentials"@, JsonV::Object(c), "credentials"@);
    assert(as_object_v(jget(s, "credentials"@)) == Some(c));
    assert(c.last() == (host, token_entry(token)));
    assert(c.drop_last() == without(creds_of(doc), host));
    assert(jget(token_entry(token), "token"@) == Some(JsonV::Str(token)));
    let e = json_entries(c, path);
    assert(e == json_entries(c.drop_last(), path).push((host, token, path)));
}

} // verus!
