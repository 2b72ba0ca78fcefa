//! The API client's conventions: base URL and request URLs, status
//! mapping with the JSON:API error detail, the bounded 429 retry, and
//! pagination over `meta.pagination.next-page`. The transport itself
//! sends what these functions decide.

use vstd::prelude::*;
use crate::error::Error;
use crate::json::{Json, JsonV, jget, oget, jpath, as_str_v, as_array_v, as_u64_v, opt_view, items_view,
    lemma_items_view, path_get, keys_view};
use crate::text::{push_str, push_dec_u64, dec_nat, contains_text, has_infix, join_with, join_strings, sview};

verus! {

/// Retries after a 429 before giving up.
pub const MAX_RATE_LIMIT_RETRIES: u32 = 3;

/// An outcome's view.
pub open spec fn result_view(r: Result<String, String>) -> Result<Seq<char>, Seq<char>> {
    match r {
        Ok(s) => Ok(s@),
        Err(e) => Err(e@),
    }
}

/// What `url::Url::parse` makes of a text: the serialized URL, or the
/// text of the parse error.
pub uninterp spec fn url_parse_result(s: Seq<char>) -> Result<Seq<char>, Seq<char>>;

/// Calls `url::Url::parse` and serializes the URL (or the error) as
/// text. The contract only names the outcome as a function of the text.
#[verifier::external_body]
pub(crate) fn parse_url(s: &str) -> (r: Result<String, String>)
    ensures
        result_view(r) == url_parse_result(s@),
{
    url::Url::parse(s).map(|u| u.to_string()).map_err(|e| e.to_string())
}

/// What `url::Url::join` answers for `input` against the URL
/// `url::Url::parse` makes of `base`: the serialized URL, or the text of
/// the error.
pub uninterp spec fn url_join_result(base: Seq<char>, input: Seq<char>) -> Result<Seq<char>, Seq<char>>;

/// Calls `url::Url::join` on the parsed `base`. The contract only names
/// the outcome as a function of the two texts.
#[verifier::external_body]
pub(crate) fn join_url(base: &str, input: &str) -> (r: Result<String, String>)
    ensures
        result_view(r) == url_join_result(base@, input@),
{
    url::Url::parse(base).and_then(|u| u.join(input)).map(|u| u.to_string()).map_err(|e| e.to_string())
}

/// The URL `url` with the pair `key=value` appended to its query by
/// `url::Url::query_pairs_mut().append_pair` (form-urlencoded), or
/// `None` when `url` does not parse.
pub uninterp spec fn url_with_pair(url: Seq<char>, key: Seq<char>, value: Seq<char>) -> Option<Seq<char>>;

/// Appends one query pair through `url::form_urlencoded::Serializer::append_pair`
/// on the parsed URL. The contract only names the outcome.
#[verifier::external_body]
fn append_pair(url: &str, key: &str, value: &str) -> (r: Option<String>)
    ensures
        sview(r) == url_with_pair(url@, key@, value@),
{
    match url::Url::parse(url) {
        Ok(mut u) => {
            u.query_pairs_mut().append_pair(key, value);
            Some(u.to_string())
        },
        Err(_) => None,
    }
}

pub open spec fn pairs_view(s: Seq<(String, String)>) -> Seq<(Seq<char>, Seq<char>)> {
    s.map_values(|p: (String, String)| (p.0@, p.1@))
}

/// `url` with each pair appended in order, as long as every step parses.
pub open spec fn url_with_pairs(url: Seq<char>, pairs: Seq<(Seq<char>, Seq<char>)>) -> Option<Seq<char>>
    decreases pairs.len(),
{
    if pairs.len() == 0 {
        Some(url)
    } else {
        match url_with_pairs(url, pairs.drop_last()) {
            Some(u) => url_with_pair(u, pairs.last().0, pairs.last().1),
            None => None,
        }
    }
}

/// Appends each pair to the URL's query, in order.
pub fn append_pairs(url: &str, pairs: &Vec<(String, String)>) -> (r: Option<String>)
    ensures
        sview(r) == url_with_pairs(url@, pairs_view(pairs@)),
{
    let ghost pv = pairs_view(pairs@);
    let mut cur = url.to_owned();
    let mut i: usize = 0;
    assert(pv.take(0) =~= Seq::<(Seq<char>, Seq<char>)>::empty());
    while i < pairs.len()
        invariant
            i <= pairs@.len(),
            pv == pairs_view(pairs@),
            pv.len() == pairs@.len(),
            url_with_pairs(url@, pv.take(i as int)) == Some(cur@),
        decreases pairs@.len() - i,
    {
        assert(pv.take(i + 1).drop_last() =~= pv.take(i as int));
        assert(pv.take(i + 1).last() == (pairs@[i as int].0@, pairs@[i as int].1@));
        match append_pair(cur.as_str(), pairs[i].0.as_str(), pairs[i].1.as_str()) {
            Some(next) => {
                cur = next;
            },
            None => {
                proof {
                    lemma_url_with_pairs_none(url@, pv, i + 1);
                }
                return None;
            },
        }
        i = i + 1;
    }
    assert(pv.take(pv.len() as int) =~= pv);
    Some(cur)
}

/// Once a step fails to parse, so does every longer prefix.
pub proof fn lemma_url_with_pairs_none(url: Seq<char>, pairs: Seq<(Seq<char>, Seq<char>)>, k: int)
    requires
        0 <= k <= pairs.len(),
        url_with_pairs(url, pairs.take(k)) is None,
    ensures
        url_with_pairs(url, pairs) is None,
    decreases pairs.len() - k,
{
    if k < pairs.len() {
        assert(pairs.take(k + 1).drop_last() =~= pairs.take(k));
        lemma_url_with_pairs_none(url, pairs, k + 1);
    } else {
        assert(pairs.take(k) =~= pairs);
    }
}

/// The base URL text for a host: as given when it carries a scheme,
/// else with `https://` in front.
pub open spec fn base_text(host: Seq<char>) -> Seq<char> {
    if has_infix(host, "://"@) {
        host
    } else {
        "https://"@ + host
    }
}

/// The message for a host that does not make a URL.
pub open spec fn invalid_host_message(host: Seq<char>, err: Seq<char>) -> Seq<char> {
    "invalid host "@ + host + ": "@ + err
}

/// The base URL of a host (a bare hostname, or a full URL with scheme).
/// A text `url::Url` refuses is a usage error.
pub fn base_url(host: &str) -> (r: Result<String, Error>)
    ensures
        match url_parse_result(base_text(host@)) {
            Ok(u) => r matches Ok(s) && s@ == u,
            Err(e) => r matches Err(Error::Usage(m)) && m@ == invalid_host_message(host@, e),
        },
{
    let text = if contains_text(host, "://") {
        host.to_owned()
    } else {
        let mut s = "https://".to_owned();
        push_str(&mut s, host);
        s
    };
    match parse_url(text.as_str()) {
        Ok(u) => Ok(u),
        Err(e) => {
            let mut m = "invalid host ".to_owned();
            push_str(&mut m, host);
            push_str(&mut m, ": ");
            push_str(&mut m, e.as_str());
            Err(Error::Usage(m))
        },
    }
}

/// The message for a path that does not join onto the base URL.
pub open spec fn invalid_path_message(path: Seq<char>, err: Seq<char>) -> Seq<char> {
    "invalid URL path "@ + path + ": "@ + err
}

/// A request URL: the path (and query) joined onto the base URL.
pub fn request_url(base: &str, path_and_query: &str) -> (r: Result<String, Error>)
    ensures
        match url_join_result(base@, path_and_query@) {
            Ok(u) => r matches Ok(s) && s@ == u,
            Err(e) => r matches Err(Error::Other(m)) && m@ == invalid_path_message(path_and_query@, e),
        },
{
    match join_url(base, path_and_query) {
        Ok(u) => Ok(u),
        Err(e) => {
            let mut m = "invalid URL path ".to_owned();
            push_str(&mut m, path_and_query);
            push_str(&mut m, ": ");
            push_str(&mut m, e.as_str());
            Err(Error::Other(m))
        },
    }
}

/// The reason phrase `reqwest::StatusCode` gives a status code, when it
/// is a valid code with a known phrase.
pub uninterp spec fn status_reason(code: u16) -> Option<Seq<char>>;

/// Calls `reqwest::StatusCode::from_u16` and `canonical_reason`. The
/// contract only names the phrase as a function of the code.
#[verifier::external_body]
pub(crate) fn reason_phrase(code: u16) -> (r: Option<String>)
    ensures
        sview(r) == status_reason(code),
{
    reqwest::StatusCode::from_u16(code).ok().and_then(|s| s.canonical_reason()).map(|s| s.to_owned())
}

/// The text one JSON:API error contributes: `title: detail`, or
/// whichever of the two it has.
pub open spec fn error_part(e: JsonV) -> Option<Seq<char>> {
    let title = as_str_v(jget(e, "title"@));
    let detail = as_str_v(jget(e, "detail"@));
    match (title, detail) {
        (Some(t), Some(d)) => Some(t + ": "@ + d),
        (Some(t), None) => Some(t),
        (None, Some(d)) => Some(d),
        (None, None) => None,
    }
}

/// The parts of a list of errors, in order.
pub open spec fn error_parts(es: Seq<JsonV>) -> Seq<Seq<char>>
    decreases es.len(),
{
    if es.len() == 0 {
        Seq::empty()
    } else {
        match error_part(es.last()) {
            Some(p) => error_parts(es.drop_last()).push(p),
            None => error_parts(es.drop_last()),
        }
    }
}

/// The detail a response body gives: its errors' parts joined with
/// `; `, when that is not empty.
pub open spec fn body_detail(body: Option<JsonV>) -> Option<Seq<char>> {
    match as_array_v(oget(body, "errors"@)) {
        Some(es) => {
            let j = join_with(error_parts(es), "; "@);
            if j.len() > 0 {
                Some(j)
            } else {
                None
            }
        },
        None => None,
    }
}

/// The detail of an error response: from the body, else the status's
/// reason phrase, else `error`.
pub open spec fn error_detail_text(status: u16, body: Option<JsonV>) -> Seq<char> {
    match body_detail(body) {
        Some(d) => d,
        None => match status_reason(status) {
            Some(r) => r,
            None => "error"@,
        },
    }
}

fn error_part_of(e: &Json) -> (r: Option<String>)
    ensures
        sview(r) == error_part(e@),
{
    let title = match e.get("title") {
        Some(t) => t.as_str(),
        None => None,
    };
    let detail = match e.get("detail") {
        Some(d) => d.as_str(),
        None => None,
    };
    match (title, detail) {
        (Some(t), Some(d)) => {
            let mut s = t.clone();
            push_str(&mut s, ": ");
            push_str(&mut s, d.as_str());
            Some(s)
        },
        (Some(t), None) => Some(t.clone()),
        (None, Some(d)) => Some(d.clone()),
        (None, None) => None,
    }
}

/// The JSON:API error detail of a response: the `title: detail` pairs
/// of its errors joined with `; `, or the reason phrase when the body
/// has none.
pub fn error_detail(status: u16, body: Option<&Json>) -> (r: String)
    ensures
        r@ == error_detail_text(status, opt_view(body)),
{
    let errors = match body {
        Some(b) => match b.get("errors") {
            Some(e) => e.as_array(),
            None => None,
        },
        None => None,
    };
    match errors {
        Some(es) => {
            proof {
                lemma_items_view(es@);
            }
            let ghost ev = items_view(es@);
            let mut parts: Vec<String> = Vec::new();
            let mut i: usize = 0;
            assert(ev.take(0) =~= Seq::<JsonV>::empty());
            while i < es.len()
                invariant
                    i <= es@.len(),
                    ev == items_view(es@),
                    ev.len() == es@.len(),
                    forall|j: int| 0 <= j < es@.len() ==> #[trigger] ev[j] == es@[j]@,
                    parts@.map_values(|x: String| x@) == error_parts(ev.take(i as int)),
                decreases es@.len() - i,
            {
                assert(ev.take(i + 1).drop_last() =~= ev.take(i as int));
                assert(ev.take(i + 1).last() == es@[i as int]@);
                match error_part_of(&es[i]) {
                    Some(p) => {
                        let ghost before = parts@;
                        parts.push(p);
                        assert(parts@.map_values(|x: String| x@) =~= before.map_values(|x: String| x@).push(p@));
                    },
                    None => {},
                }
                i = i + 1;
            }
            assert(ev.take(ev.len() as int) =~= ev);
            let joined = join_strings(&parts, "; ");
            if !joined.as_str().is_empty() {
                return joined;
            }
            assert(joined@.len() == 0) by {
                assert(joined@ =~= join_with(error_parts(ev), "; "@));
            }
        },
        None => {},
    }
    match reason_phrase(status) {
        Some(r) => r,
        None => "error".to_owned(),
    }
}

/// The status is a success (2xx) or a redirection (3xx).
pub open spec fn passes(status: u16) -> bool {
    200 <= status < 400
}

/// Maps a response status onto the outcome of a request: successes and
/// redirections pass; anything else is an API error carrying the detail
/// of the body.
pub fn status_outcome(status: u16, body: Option<&Json>) -> (r: Result<(), Error>)
    ensures
        passes(status) ==> r is Ok,
        !passes(status) ==> (r matches Err(Error::Api { status: s, detail: d }) && s == status && d@
            == error_detail_text(status, opt_view(body))),
{
    if 200 <= status && status < 400 {
        return Ok(());
    }
    let detail = error_detail(status, body);
    Err(Error::api(status, detail.as_str()))
}

/// What to do after a response arrives.
#[derive(Debug)]
pub enum RetryStep {
    /// Rate limited with retries left: wait, then send again.
    Retry,
    /// Rate limited with no retries left.
    GiveUp(Error),
    /// Hand the response to the caller.
    Done,
}

/// The message when the client gives up on rate limiting.
pub open spec fn rate_limited_message() -> Seq<char> {
    "rate limited; giving up after "@ + dec_nat(MAX_RATE_LIMIT_RETRIES as nat) + " retries"@
}

/// A 429 with retries left is sent again.
pub open spec fn retries_again(status: u16, made: nat) -> bool {
    status == 429 && made < MAX_RATE_LIMIT_RETRIES
}

/// A 429 with no retries left ends the request.
pub open spec fn gives_up(status: u16, made: nat) -> bool {
    status == 429 && made >= MAX_RATE_LIMIT_RETRIES
}

/// How a request ends when the server answers `answers` in turn and each
/// answer is decided by [`retry_step`] with the retries made so far:
/// the retries made, and whether it gave up (else the last answer read
/// is handed on). `None` when the answers run out first.
pub open spec fn retry_run(answers: Seq<u16>, made: nat) -> Option<(nat, bool)>
    decreases answers.len(),
{
    if answers.len() == 0 {
        None
    } else if retries_again(answers[0], made) {
        retry_run(answers.drop_first(), made + 1)
    } else if gives_up(answers[0], made) {
        Some((made, true))
    } else {
        Some((made, false))
    }
}

/// Law (rate limiting): starting with no retries, a request retries each
/// 429 among the first answers, at most three times. When one of the
/// first four answers is not a 429, the request hands that answer on
/// after as many retries as 429s came before it; when all four are 429s,
/// it gives up at the fourth after three retries.
pub proof fn law_retry_is_bounded(answers: Seq<u16>)
    requires
        answers.len() >= 4,
    ensures
        retry_run(answers, 0) is Some,
        retry_run(answers, 0).unwrap().0 <= 3,
        (forall|i: int| 0 <= i < 4 ==> answers[i] == 429) ==> retry_run(answers, 0) == Some((3nat, true)),
        forall|k: int|
            0 <= k < 4 && answers[k] != 429 && (forall|i: int| 0 <= i < k ==> answers[i] == 429)
                ==> retry_run(answers, 0) == Some((k as nat, false)),
{
    let a1 = answers.drop_first();
    let a2 = a1.drop_first();
    let a3 = a2.drop_first();
    assert(a1[0] == answers[1] && a2[0] == answers[2] && a3[0] == answers[3]);
    reveal_with_fuel(retry_run, 5);
}

/// Decides a response: a 429 is retried while fewer than
/// `MAX_RATE_LIMIT_RETRIES` retries were made, then given up as an API
/// error; any other status is handed on.
pub fn retry_step(status: u16, retries_made: u32) -> (r: RetryStep)
    ensures
        retries_again(status, retries_made as nat) ==> r is Retry,
        gives_up(status, retries_made as nat) ==> (r matches RetryStep::GiveUp(
            Error::Api { status: s, detail: d },
        ) && s == 429 && d@ == rate_limited_message()),
        status != 429 ==> r is Done,
{
    if status == 429 && retries_made < MAX_RATE_LIMIT_RETRIES {
        RetryStep::Retry
    } else if status == 429 {
        let mut m = "rate limited; giving up after ".to_owned();
        push_dec_u64(&mut m, MAX_RATE_LIMIT_RETRIES as u64);
        push_str(&mut m, " retries");
        RetryStep::GiveUp(Error::api(429, m.as_str()))
    } else {
        RetryStep::Done
    }
}

/// The query of one page: the caller's pairs, then the page number and
/// size.
pub fn page_query(query: &Vec<(String, String)>, page: u64, page_size: u32) -> (r: Vec<(String, String)>)
    ensures
        pairs_view(r@) == pairs_view(query@) + seq![
            ("page[number]"@, dec_nat(page as nat)),
            ("page[size]"@, dec_nat(page_size as nat)),
        ],
{
    let mut q: Vec<(String, String)> = Vec::new();
    let mut i: usize = 0;
    while i < query.len()
        invariant
            i <= query@.len(),
            pairs_view(q@) == pairs_view(query@).take(i as int),
        decreases query@.len() - i,
    {
        let ghost before = q@;
        let k = query[i].0.clone();
        let v = query[i].1.clone();
        assert(k@ == query@[i as int].0@ && v@ == query@[i as int].1@);
        q.push((k, v));
        assert(pairs_view(q@) =~= pairs_view(before).push((query@[i as int].0@, query@[i as int].1@)));
        assert(pairs_view(query@).take(i + 1) =~= pairs_view(query@).take(i as int).push((query@[i as int].0@, query@[i as int].1@)));
        i = i + 1;
    }
    let mut n = String::new();
    push_dec_u64(&mut n, page);
    let mut z = String::new();
    push_dec_u64(&mut z, page_size as u64);
    let ghost q0 = q@;
    q.push(("page[number]".to_owned(), n));
    q.push(("page[size]".to_owned(), z));
    assert(pairs_view(query@).take(query@.len() as int) =~= pairs_view(query@));
    assert(pairs_view(q@) =~= pairs_view(q0).push(("page[number]"@, dec_nat(page as nat))).push(("page[size]"@, dec_nat(page_size as nat))));
    assert(pairs_view(q@) =~= pairs_view(query@) + seq![
        ("page[number]"@, dec_nat(page as nat)),
        ("page[size]"@, dec_nat(page_size as nat)),
    ]);
    q
}

/// The URL of one page of a collection.
pub fn page_url(base: &str, path: &str, query: &Vec<(String, String)>, page: u64, page_size: u32) -> (r: Result<String, Error>)
    ensures
        match url_join_result(base@, path@) {
            Ok(u) => match url_with_pairs(u, page_pairs(pairs_view(query@), page as int, page_size)) {
                Some(full) => r matches Ok(s) && s@ == full,
                None => r is Err,
            },
            Err(e) => r matches Err(Error::Other(m)) && m@ == invalid_path_message(path@, e),
        },
{
    let url = request_url(base, path)?;
    let q = page_query(query, page, page_size);
    match append_pairs(url.as_str(), &q) {
        Some(full) => Ok(full),
        None => Err(Error::Other("cannot build the page URL".to_owned())),
    }
}

/// The next page a document announces, when it announces one.
pub open spec fn next_page(doc: JsonV) -> Option<int> {
    as_u64_v(jpath(doc, seq!["meta"@, "pagination"@, "next-page"@]))
}

/// The elements of `doc[key]`, when it is an array.
pub open spec fn array_at(doc: JsonV, key: Seq<char>) -> Seq<JsonV> {
    match as_array_v(jget(doc, key)) {
        Some(a) => a,
        None => Seq::empty(),
    }
}

fn append_array(acc: &mut Vec<Json>, doc: &Json, key: &str)
    ensures
        items_view(final(acc)@) == items_view(old(acc)@) + array_at(doc@, key@),
{
    proof {
        lemma_items_view(old(acc)@);
    }
    let ghost start = items_view(acc@);
    match doc.get(key) {
        Some(x) => match x.as_array() {
            Some(items) => {
                proof {
                    lemma_items_view(items@);
                }
                let mut i: usize = 0;
                while i < items.len()
                    invariant
                        i <= items@.len(),
                        items_view(acc@) == start + items_view(items@).take(i as int),
                        items_view(items@).len() == items@.len(),
                        forall|j: int| 0 <= j < items@.len() ==> #[trigger] items_view(items@)[j] == items@[j]@,
                    decreases items@.len() - i,
                {
                    let ghost before = acc@;
                    acc.push(items[i].deep_clone());
                    proof {
                        assert(acc@.drop_last() =~= before);
                        assert(items_view(acc@) =~= items_view(before).push(items@[i as int]@));
                        assert(items_view(items@).take(i + 1) =~= items_view(items@).take(i as int).push(items@[i as int]@));
                    }
                    i = i + 1;
                }
                assert(items_view(items@).take(items@.len() as int) =~= items_view(items@));
            },
            None => {
                assert(items_view(acc@) =~= start + array_at(doc@, key@));
            },
        },
        None => {
            assert(items_view(acc@) =~= start + array_at(doc@, key@));
        },
    }
}

/// The `data` elements of pages, in order.
pub open spec fn page_data(pages: Seq<JsonV>) -> Seq<JsonV>
    decreases pages.len(),
{
    if pages.len() == 0 {
        Seq::empty()
    } else {
        array_at(pages[0], "data"@) + page_data(pages.drop_first())
    }
}

/// The first `m` items when a limit is given and reached.
pub open spec fn limited(s: Seq<JsonV>, max_items: Option<usize>) -> Seq<JsonV> {
    match max_items {
        Some(m) => if s.len() >= m {
            s.take(m as int)
        } else {
            s
        },
        None => s,
    }
}

/// The `included` elements of pages, in order.
pub open spec fn page_included(pages: Seq<JsonV>) -> Seq<JsonV>
    decreases pages.len(),
{
    if pages.len() == 0 {
        Seq::empty()
    } else {
        array_at(pages[0], "included"@) + page_included(pages.drop_first())
    }
}

/// The query pairs of the request for page `page`: the caller's pairs,
/// then the page number and size.
pub open spec fn page_pairs(query: Seq<(Seq<char>, Seq<char>)>, page: int, page_size: u32) -> Seq<(Seq<char>, Seq<char>)> {
    query + seq![("page[number]"@, dec_nat(page as nat)), ("page[size]"@, dec_nat(page_size as nat))]
}

/// The paging loop driven by [`absorb_page`]: `pages` are the documents
/// the server answers in turn, the first requested as page `page`, from
/// `held` data and `inc` included items. Each answer is absorbed; the
/// loop asks for the page the answer names next, and stops when it names
/// none or the limit is reached. The result is the data held, the
/// included items held, and the page numbers requested.
pub open spec fn page_loop(
    pages: Seq<JsonV>,
    page: int,
    held: Seq<JsonV>,
    inc: Seq<JsonV>,
    max_items: Option<usize>,
) -> (Seq<JsonV>, Seq<JsonV>, Seq<int>)
    decreases pages.len(),
{
    if pages.len() == 0 {
        (held, inc, Seq::empty())
    } else {
        let all = held + array_at(pages[0], "data"@);
        let inc2 = inc + array_at(pages[0], "included"@);
        let reached = match max_items {
            Some(m) => all.len() >= m,
            None => false,
        };
        if reached {
            (all.take(max_items.unwrap() as int), inc2, seq![page])
        } else {
            match next_page(pages[0]) {
                None => (all, inc2, seq![page]),
                Some(p) => {
                    let rest = page_loop(pages.drop_first(), p, all, inc2, max_items);
                    (rest.0, rest.1, seq![page] + rest.2)
                },
            }
        }
    }
}

/// The answers form a chain from page `page`: each names the following
/// page as next, and the last names none.
pub open spec fn chained(pages: Seq<JsonV>, page: int) -> bool {
    &&& pages.len() > 0
    &&& forall|k: int| 0 <= k < pages.len() - 1 ==> next_page(#[trigger] pages[k]) == Some(page + k + 1)
    &&& next_page(pages[pages.len() - 1]) is None
}

proof fn lemma_chained_rest(pages: Seq<JsonV>, page: int)
    requires
        chained(pages, page),
        pages.len() > 1,
    ensures
        chained(pages.drop_first(), page + 1),
        next_page(pages[0]) == Some(page + 1),
{
    let r = pages.drop_first();
    assert(next_page(pages[0]) == Some(page + 0 + 1));
    assert forall|k: int| 0 <= k < r.len() - 1 implies next_page(#[trigger] r[k]) == Some(page + 1 + k + 1) by {
        assert(r[k] == pages[k + 1]);
        assert(next_page(pages[k + 1]) == Some(page + (k + 1) + 1));
    }
    assert(r[r.len() - 1] == pages[pages.len() - 1]);
}

proof fn lemma_page_loop_all(pages: Seq<JsonV>, page: int, held: Seq<JsonV>, inc: Seq<JsonV>)
    requires
        chained(pages, page),
    ensures
        page_loop(pages, page, held, inc, None) == (
            held + page_data(pages),
            inc + page_included(pages),
            Seq::new(pages.len(), |k: int| page + k),
        ),
    decreases pages.len(),
{
    let all = held + array_at(pages[0], "data"@);
    let inc2 = inc + array_at(pages[0], "included"@);
    if pages.len() == 1 {
        assert(page_data(pages.drop_first()) =~= Seq::<JsonV>::empty());
        assert(page_included(pages.drop_first()) =~= Seq::<JsonV>::empty());
        assert(held + page_data(pages) =~= all);
        assert(inc + page_included(pages) =~= inc2);
        assert(Seq::new(pages.len(), |k: int| page + k) =~= seq![page]);
    } else {
        lemma_chained_rest(pages, page);
        lemma_page_loop_all(pages.drop_first(), page + 1, all, inc2);
        assert(held + page_data(pages) =~= all + page_data(pages.drop_first()));
        assert(inc + page_included(pages) =~= inc2 + page_included(pages.drop_first()));
        assert(seq![page] + Seq::new(pages.drop_first().len(), |k: int| page + 1 + k) =~= Seq::new(
            pages.len(),
            |k: int| page + k,
        ));
    }
}

proof fn lemma_page_loop_limited(pages: Seq<JsonV>, page: int, held: Seq<JsonV>, inc: Seq<JsonV>, m: usize)
    requires
        chained(pages, page),
        held.len() < m,
    ensures
        page_loop(pages, page, held, inc, Some(m)).0 == limited(held + page_data(pages), Some(m)),
    decreases pages.len(),
{
    let all = held + array_at(pages[0], "data"@);
    let inc2 = inc + array_at(pages[0], "included"@);
    let rest = page_data(pages.drop_first());
    assert(held + page_data(pages) =~= all + rest);
    if all.len() >= m {
        assert((all + rest).take(m as int) =~= all.take(m as int));
    } else if pages.len() == 1 {
        assert(rest =~= Seq::<JsonV>::empty());
        assert(all + rest =~= all);
    } else {
        lemma_chained_rest(pages, page);
        lemma_page_loop_limited(pages.drop_first(), page + 1, all, inc2, m);
    }
}

/// Law (pagination): when the server answers pages 1 to n, each naming
/// the next and the last naming none, the loop asks for pages 1 to n in
/// order, each request carrying the caller's query then the page number
/// and size, and holds the pages' `data` and `included` items
/// concatenated in page order. With a limit of `m` items it holds the
/// first `m` data items once that many have arrived.
pub proof fn law_pages_concatenate(
    pages: Seq<JsonV>,
    max_items: Option<usize>,
    query: Seq<(Seq<char>, Seq<char>)>,
    page_size: u32,
)
    requires
        chained(pages, 1),
    ensures
        max_items is None ==> page_loop(pages, 1, Seq::empty(), Seq::empty(), max_items) == (
            page_data(pages),
            page_included(pages),
            Seq::new(pages.len(), |k: int| k + 1),
        ),
        page_loop(pages, 1, Seq::empty(), Seq::empty(), max_items).0 == limited(page_data(pages), max_items),
        forall|k: int|
            0 <= k < pages.len() ==> #[trigger] page_pairs(query, k + 1, page_size) == query + seq![
                ("page[number]"@, dec_nat((k + 1) as nat)),
                ("page[size]"@, dec_nat(page_size as nat)),
            ],
{
    let e = Seq::<JsonV>::empty();
    assert(e + page_data(pages) =~= page_data(pages));
    assert(e + page_included(pages) =~= page_included(pages));
    lemma_page_loop_all(pages, 1, e, e);
    assert(Seq::new(pages.len(), |k: int| 1 + k) =~= Seq::new(pages.len(), |k: int| k + 1));
    match max_items {
        Some(m) => {
            if m == 0 {
                assert(limited(page_data(pages), max_items) =~= e);
                assert((e + array_at(pages[0], "data"@)).take(0) =~= e);
            } else {
                lemma_page_loop_limited(pages, 1, e, e, m);
            }
        },
        None => {},
    }
}

/// Takes in one page: its `data` and `included` are appended; once
/// `max_items` items are collected the data is cut to that many and
/// paging stops; otherwise the announced next page, if any, is returned.
pub fn absorb_page(data: &mut Vec<Json>, included: &mut Vec<Json>, doc: &Json, max_items: Option<usize>) -> (next: Option<u64>)
    ensures
        items_view(final(included)@) == items_view(old(included)@) + array_at(doc@, "included"@),
        ({
            let all = items_view(old(data)@) + array_at(doc@, "data"@);
            match max_items {
                Some(m) => if all.len() >= m {
                    items_view(final(data)@) == all.take(m as int) && next is None
                } else {
                    items_view(final(data)@) == all && next_page(doc@) == match next {
                        Some(p) => Some(p as int),
                        None => None,
                    }
                },
                None => items_view(final(data)@) == all && next_page(doc@) == match next {
                    Some(p) => Some(p as int),
                    None => None,
                },
            }
        }),
{
    append_array(data, doc, "data");
    append_array(included, doc, "included");
    proof {
        lemma_items_view(data@);
    }
    match max_items {
        Some(m) => {
            if data.len() >= m {
                let ghost before = data@;
                data.truncate(m);
                proof {
                    lemma_items_view(data@);
                    lemma_items_view(before);
                    assert(items_view(data@) =~= items_view(before).take(m as int));
                }
                return None;
            }
        },
        None => {},
    }
    let next = match path_get(doc, &["meta", "pagination", "next-page"]) {
        Some(p) => p.as_u64(),
        None => None,
    };
    assert(keys_view(["meta", "pagination", "next-page"]@) =~= seq!["meta"@, "pagination"@, "next-page"@]);
    next
}

} // verus!
