//! `tfrm login` protocol pieces: `login.v1` service discovery, PKCE
//! material, the authorize URL, the code-for-token exchange and token
//! verification answers, and reading the authorization code from the
//! localhost callback or from pasted input.

use vstd::prelude::*;
use crate::error::Error;
use crate::json::{Json, JsonV, json_parse_result, parse_json_text, jget, jpath, as_str_v, as_array_v, as_u64_v, items_view, lemma_items_view, path_get,
    keys_view};
use crate::client::{url_join_result, url_with_pairs, pairs_view, result_view, base_url, base_text, url_parse_result,
    status_reason, append_pairs, join_url};
use crate::text::{push_str, push_dec_u64, dec_nat, sview, is_ws, is_ws_char, chars_of, trim, trimmed, contains_text, has_infix};
use crate::show::{first_line, subject_line};

verus! {

/// The OAuth client a host advertises under `login.v1`.
#[derive(Debug, Clone)]
pub struct OAuthConfig {
    pub client_id: String,
    pub authz_url: String,
    pub token_url: String,
    /// Inclusive localhost callback port range.
    pub min_port: u16,
    pub max_port: u16,
    pub scopes: Vec<String>,
}

/// The view of an [`OAuthConfig`].
pub struct OAuthConfigV {
    pub client_id: Seq<char>,
    pub authz_url: Seq<char>,
    pub token_url: Seq<char>,
    pub min_port: u16,
    pub max_port: u16,
    pub scopes: Seq<Seq<char>>,
}

impl View for OAuthConfig {
    type V = OAuthConfigV;

    open spec fn view(&self) -> OAuthConfigV {
        OAuthConfigV {
            client_id: self.client_id@,
            authz_url: self.authz_url@,
            token_url: self.token_url@,
            min_port: self.min_port,
            max_port: self.max_port,
            scopes: self.scopes@.map_values(|s: String| s@),
        }
    }
}

/// The URL of a host's service-discovery document. An unusable host is
/// a usage error; a failed join an unexpected one.
pub fn discovery_url(host: &str) -> (r: Result<String, Error>)
    ensures
        match url_parse_result(base_text(host@)) {
            Ok(b) => match url_join_result(b, "/.well-known/terraform.json"@) {
                Ok(u) => r matches Ok(s) && s@ == u,
                Err(e) => r matches Err(Error::Other(m)) && m@ == "cannot build discovery URL: "@ + e,
            },
            Err(e) => r matches Err(Error::Usage(m)) && m@ == "invalid host "@ + host@ + ": "@ + e,
        },
{
    let base = base_url(host)?;
    match join_url(base.as_str(), "/.well-known/terraform.json") {
        Ok(u) => Ok(u),
        Err(e) => {
            let mut m = "cannot build discovery URL: ".to_owned();
            push_str(&mut m, e.as_str());
            Err(Error::Other(m))
        },
    }
}

/// A status as `reqwest::StatusCode` displays it: the code and its
/// reason phrase.
pub open spec fn status_display(code: u16) -> Seq<char> {
    dec_nat(code as nat) + " "@ + match status_reason(code) {
        Some(r) => r,
        None => "<unknown status code>"@,
    }
}

/// The message when a host refuses service discovery.
pub open spec fn no_discovery_message(host: Seq<char>, code: u16) -> Seq<char> {
    host + " does not answer service discovery ("@ + status_display(code)
        + "); is it a Terraform Enterprise / HCP Terraform host?"@
}

/// The not-found error for a host whose discovery request failed with
/// this status.
pub fn discovery_refused(host: &str, status: u16) -> (r: Error)
    ensures
        r matches Error::NotFound(m) && m@ == no_discovery_message(host@, status),
{
    let mut m = host.to_owned();
    push_str(&mut m, " does not answer service discovery (");
    push_dec_u64(&mut m, status as u64);
    push_str(&mut m, " ");
    match crate::client::reason_phrase(status) {
        Some(r) => push_str(&mut m, r.as_str()),
        None => push_str(&mut m, "<unknown status code>"),
    }
    push_str(&mut m, "); is it a Terraform Enterprise / HCP Terraform host?");
    Error::NotFound(m)
}

/// The message when a host has no `login.v1` service.
pub open spec fn no_login_message(host: Seq<char>) -> Seq<char> {
    host + " does not advertise the login.v1 service; tfrm login is not supported for this host"@
}

/// One of the login service's URLs, resolved against the discovery URL:
/// the URL, or the message for a missing or unusable entry.
pub open spec fn login_url(login: JsonV, well_known: Seq<char>, field: Seq<char>) -> Result<Seq<char>, Seq<char>> {
    match as_str_v(jget(login, field)) {
        Some(raw) => match url_join_result(well_known, raw) {
            Ok(u) => Ok(u),
            Err(e) => Err("invalid login.v1 "@ + field + " URL: "@ + e),
        },
        None => Err("discovery login.v1 is missing \""@ + field + "\""@),
    }
}

/// The ports the login service lists, in order: the entries that are
/// integers a `u16` holds.
pub open spec fn ports_of(items: Seq<JsonV>) -> Seq<u16>
    decreases items.len(),
{
    if items.len() == 0 {
        Seq::empty()
    } else {
        match as_u64_v(Some(items.last())) {
            Some(p) => if p <= 65535 {
                ports_of(items.drop_last()).push(p as u16)
            } else {
                ports_of(items.drop_last())
            },
            None => ports_of(items.drop_last()),
        }
    }
}

/// The callback port range: the first two listed ports, else
/// 10000–10010.
pub open spec fn port_range(login: JsonV) -> (u16, u16) {
    let ports = match as_array_v(jget(login, "ports"@)) {
        Some(items) => ports_of(items),
        None => Seq::empty(),
    };
    if ports.len() >= 2 {
        (ports[0], ports[1])
    } else {
        (10000u16, 10010u16)
    }
}

/// The string entries of an array, in order.
pub open spec fn strings_of(items: Seq<JsonV>) -> Seq<Seq<char>>
    decreases items.len(),
{
    if items.len() == 0 {
        Seq::empty()
    } else {
        match items.last() {
            JsonV::Str(s) => strings_of(items.drop_last()).push(s),
            _ => strings_of(items.drop_last()),
        }
    }
}

/// The configuration a login service describes, given its two URLs.
pub open spec fn config_of(login: JsonV, authz: Seq<char>, token: Seq<char>) -> OAuthConfigV {
    OAuthConfigV {
        client_id: match as_str_v(jget(login, "client"@)) {
            Some(c) => c,
            None => "terraform-cli"@,
        },
        authz_url: authz,
        token_url: token,
        min_port: port_range(login).0,
        max_port: port_range(login).1,
        scopes: match as_array_v(jget(login, "scopes"@)) {
            Some(items) => strings_of(items),
            None => Seq::empty(),
        },
    }
}

fn resolve_login_url(login: &Json, well_known: &str, field: &str) -> (r: Result<String, Error>)
    ensures
        match login_url(login@, well_known@, field@) {
            Ok(u) => r matches Ok(s) && s@ == u,
            Err(msg) => r matches Err(Error::Other(m)) && m@ == msg,
        },
{
    match login.get(field) {
        Some(v) => match v.as_str() {
            Some(raw) => match join_url(well_known, raw.as_str()) {
                Ok(u) => Ok(u),
                Err(e) => {
                    let mut m = "invalid login.v1 ".to_owned();
                    push_str(&mut m, field);
                    push_str(&mut m, " URL: ");
                    push_str(&mut m, e.as_str());
                    Err(Error::Other(m))
                },
            },
            None => Err(missing_field(field)),
        },
        None => Err(missing_field(field)),
    }
}

fn missing_field(field: &str) -> (r: Error)
    ensures
        r matches Error::Other(m) && m@ == "discovery login.v1 is missing \""@ + field@ + "\""@,
{
    let mut m = "discovery login.v1 is missing \"".to_owned();
    push_str(&mut m, field);
    push_str(&mut m, "\"");
    Error::Other(m)
}

fn listed_ports(login: &Json) -> (r: (u16, u16))
    ensures
        r == port_range(login@),
{
    let mut ports: Vec<u16> = Vec::new();
    match login.get("ports") {
        Some(p) => match p.as_array() {
            Some(items) => {
                proof {
                    lemma_items_view(items@);
                }
                let ghost iv = items_view(items@);
                let mut i: usize = 0;
                assert(ports@ =~= ports_of(iv.take(0)));
                while i < items.len()
                    invariant
                        i <= items@.len(),
                        iv == items_view(items@),
                        iv.len() == items@.len(),
                        forall|j: int| 0 <= j < items@.len() ==> #[trigger] iv[j] == items@[j]@,
                        ports@ == ports_of(iv.take(i as int)),
                    decreases items@.len() - i,
                {
                    assert(iv.take(i + 1).drop_last() =~= iv.take(i as int));
                    assert(iv.take(i + 1).last() == items@[i as int]@);
                    match items[i].as_u64() {
                        Some(n) => {
                            if n <= 65535 {
                                ports.push(n as u16);
                            }
                        },
                        None => {},
                    }
                    i = i + 1;
                }
                assert(iv.take(iv.len() as int) =~= iv);
            },
            None => {},
        },
        None => {},
    }
    if ports.len() >= 2 {
        (ports[0], ports[1])
    } else {
        (10000, 10010)
    }
}

fn string_items(v: Option<&Json>) -> (r: Vec<String>)
    ensures
        r@.map_values(|s: String| s@) == match v {
            Some(x) => match as_array_v(Some(x@)) {
                Some(items) => strings_of(items),
                None => Seq::empty(),
            },
            None => Seq::<Seq<char>>::empty(),
        },
{
    let mut out: Vec<String> = Vec::new();
    match v {
        Some(x) => match x.as_array() {
            Some(items) => {
                proof {
                    lemma_items_view(items@);
                }
                let ghost iv = items_view(items@);
                let mut i: usize = 0;
                assert(out@.map_values(|s: String| s@) =~= strings_of(iv.take(0)));
                while i < items.len()
                    invariant
                        i <= items@.len(),
                        iv == items_view(items@),
                        iv.len() == items@.len(),
                        forall|j: int| 0 <= j < items@.len() ==> #[trigger] iv[j] == items@[j]@,
                        out@.map_values(|s: String| s@) == strings_of(iv.take(i as int)),
                    decreases items@.len() - i,
                {
                    assert(iv.take(i + 1).drop_last() =~= iv.take(i as int));
                    assert(iv.take(i + 1).last() == items@[i as int]@);
                    match items[i].as_str() {
                        Some(s) => {
                            let ghost before = out@;
                            out.push(s.clone());
                            assert(out@.map_values(|s: String| s@) =~= before.map_values(|s: String| s@).push(s@));
                        },
                        None => {},
                    }
                    i = i + 1;
                }
                assert(iv.take(iv.len() as int) =~= iv);
            },
            None => {
                assert(out@.map_values(|s: String| s@) =~= Seq::<Seq<char>>::empty());
            },
        },
        None => {
            assert(out@.map_values(|s: String| s@) =~= Seq::<Seq<char>>::empty());
        },
    }
    out
}

/// The OAuth client configuration a discovery document advertises under
/// `login.v1`, its URLs resolved against the discovery URL. A host
/// without `login.v1` is not-found; a missing or unusable URL is an
/// unexpected error (the authorization URL is checked first).
pub fn config_from_discovery(doc: &Json, host: &str, well_known: &str) -> (r: Result<OAuthConfig, Error>)
    ensures
        match jget(doc@, "login.v1"@) {
            None => r matches Err(Error::NotFound(m)) && m@ == no_login_message(host@),
            Some(login) => match login_url(login, well_known@, "authz"@) {
                Err(msg) => r matches Err(Error::Other(m)) && m@ == msg,
                Ok(a) => match login_url(login, well_known@, "token"@) {
                    Err(msg) => r matches Err(Error::Other(m)) && m@ == msg,
                    Ok(t) => r matches Ok(c) && c@ == config_of(login, a, t),
                },
            },
        },
{
    let login = match doc.get("login.v1") {
        Some(l) => l,
        None => {
            let mut m = host.to_owned();
            push_str(&mut m, " does not advertise the login.v1 service; tfrm login is not supported for this host");
            return Err(Error::NotFound(m));
        },
    };
    let (min_port, max_port) = listed_ports(login);
    let client_id = match login.get("client") {
        Some(c) => match c.as_str() {
            Some(s) => s.clone(),
            None => "terraform-cli".to_owned(),
        },
        None => "terraform-cli".to_owned(),
    };
    let authz_url = resolve_login_url(login, well_known, "authz")?;
    let token_url = resolve_login_url(login, well_known, "token")?;
    let scopes = string_items(login.get("scopes"));
    Ok(OAuthConfig { client_id, authz_url, token_url, min_port, max_port, scopes })
}

/// The unpadded URL-safe base64 alphabet.
pub open spec fn b64_char(d: int) -> char {
    if d < 26 {
        (d + 65) as char
    } else if d < 52 {
        (d - 26 + 97) as char
    } else if d < 62 {
        (d - 52 + 48) as char
    } else if d == 62 {
        '-'
    } else {
        '_'
    }
}

/// Unpadded URL-safe base64 of `b`: each three bytes become four
/// characters; a trailing one or two bytes become two or three.
pub open spec fn b64url(b: Seq<u8>) -> Seq<char>
    decreases b.len(),
{
    if b.len() == 0 {
        Seq::empty()
    } else if b.len() == 1 {
        seq![b64_char(b[0] as int / 4), b64_char((b[0] as int % 4) * 16)]
    } else if b.len() == 2 {
        seq![
            b64_char(b[0] as int / 4),
            b64_char((b[0] as int % 4) * 16 + b[1] as int / 16),
            b64_char((b[1] as int % 16) * 4),
        ]
    } else {
        seq![
            b64_char(b[0] as int / 4),
            b64_char((b[0] as int % 4) * 16 + b[1] as int / 16),
            b64_char((b[1] as int % 16) * 4 + b[2] as int / 64),
            b64_char(b[2] as int % 64),
        ] + b64url(b.skip(3))
    }
}

/// Encodes bytes with `base64::engine::general_purpose::URL_SAFE_NO_PAD`,
/// whose output is the unpadded URL-safe base64 of the input.
#[verifier::external_body]
fn base64_url(bytes: &Vec<u8>) -> (r: String)
    ensures
        r@ == b64url(bytes@),
{
    base64::Engine::encode(&base64::engine::general_purpose::URL_SAFE_NO_PAD, bytes)
}

/// The SHA-256 digest of the UTF-8 bytes of a text.
pub uninterp spec fn sha256_of(s: Seq<char>) -> Seq<u8>;

/// Calls `sha2::Sha256::digest` on the text's bytes. The contract names
/// the digest and states its 32-byte length.
#[verifier::external_body]
fn sha256(s: &str) -> (r: Vec<u8>)
    ensures
        r@ == sha256_of(s@),
        r@.len() == 32,
{
    <sha2::Sha256 as sha2::Digest>::digest(s.as_bytes()).to_vec()
}

/// One random byte from `rand::random` (the thread-local generator).
/// Nothing is promised of its value.
#[verifier::external_body]
fn random_byte() -> (r: u8) {
    rand::random::<u8>()
}

/// `n` random bytes.
fn random_bytes(n: usize) -> (r: Vec<u8>)
    ensures
        r@.len() == n,
{
    let mut v: Vec<u8> = Vec::new();
    let mut i: usize = 0;
    while i < n
        invariant
            i <= n,
            v@.len() == i,
        decreases n - i,
    {
        v.push(random_byte());
        i = i + 1;
    }
    v
}

/// PKCE S256 material plus the request state.
#[derive(Debug, Clone)]
pub struct Pkce {
    pub verifier: String,
    pub challenge: String,
    pub state: String,
}

/// The length of unpadded base64 of `n` bytes.
pub open spec fn b64_len(n: nat) -> nat {
    4 * (n / 3) + if n % 3 == 1 {
        2nat
    } else if n % 3 == 2 {
        3nat
    } else {
        0nat
    }
}

/// How long unpadded base64 is.
pub proof fn lemma_b64url_len(b: Seq<u8>)
    ensures
        b64url(b).len() == b64_len(b.len()),
    decreases b.len(),
{
    if b.len() >= 3 {
        lemma_b64url_len(b.skip(3));
        assert(b.skip(3).len() == b.len() - 3);
        assert((b.len() - 3) as nat / 3 == b.len() / 3 - 1);
        assert((b.len() - 3) as nat % 3 == b.len() % 3);
    }
}

/// PKCE material from drawn bytes: the verifier and the state are the
/// unpadded URL-safe base64 of their bytes, and the challenge is the
/// base64 of the SHA-256 of the verifier (the S256 method).
pub fn pkce_from_bytes(verifier_bytes: &Vec<u8>, state_bytes: &Vec<u8>) -> (r: Pkce)
    ensures
        r.verifier@ == b64url(verifier_bytes@),
        r.state@ == b64url(state_bytes@),
        r.challenge@ == b64url(sha256_of(r.verifier@)),
{
    let verifier = base64_url(verifier_bytes);
    let digest = sha256(verifier.as_str());
    let challenge = base64_url(&digest);
    let state = base64_url(state_bytes);
    Pkce { verifier, challenge, state }
}

/// Fresh PKCE material: a verifier of 32 random bytes and a state of 16,
/// both as unpadded URL-safe base64, and the challenge: the base64 of
/// the SHA-256 of the verifier (the S256 method).
pub fn generate_pkce() -> (r: Pkce)
    ensures
        r.challenge@ == b64url(sha256_of(r.verifier@)),
        r.verifier@.len() == 43,
        r.state@.len() == 22,
        exists|b: Seq<u8>| b.len() == 32 && r.verifier@ == #[trigger] b64url(b),
        exists|b: Seq<u8>| b.len() == 16 && r.state@ == #[trigger] b64url(b),
{
    let vb = random_bytes(32);
    let sb = random_bytes(16);
    proof {
        lemma_b64url_len(vb@);
        lemma_b64url_len(sb@);
    }
    pkce_from_bytes(&vb, &sb)
}

/// The query of the authorize request, in order: client id, challenge,
/// method `S256`, redirect URI, response type `code`, state, and the
/// space-joined scopes when there are any.
pub open spec fn authorize_pairs(c: OAuthConfigV, challenge: Seq<char>, state: Seq<char>, redirect_uri: Seq<char>) -> Seq<(Seq<char>, Seq<char>)> {
    seq![
        ("client_id"@, c.client_id),
        ("code_challenge"@, challenge),
        ("code_challenge_method"@, "S256"@),
        ("redirect_uri"@, redirect_uri),
        ("response_type"@, "code"@),
        ("state"@, state),
    ] + if c.scopes.len() > 0 {
        seq![("scope"@, crate::text::join_with(c.scopes, " "@))]
    } else {
        Seq::empty()
    }
}

/// The authorize URL the user's browser visits: the authorization URL
/// with the PKCE challenge, state and client parameters; `None` when the
/// configured URL does not parse.
pub fn authorize_url(config: &OAuthConfig, pkce: &Pkce, redirect_uri: &str) -> (r: Option<String>)
    ensures
        sview(r) == url_with_pairs(config.authz_url@, authorize_pairs(config@, pkce.challenge@, pkce.state@, redirect_uri@)),
{
    let mut q: Vec<(String, String)> = Vec::new();
    q.push(("client_id".to_owned(), config.client_id.clone()));
    q.push(("code_challenge".to_owned(), pkce.challenge.clone()));
    q.push(("code_challenge_method".to_owned(), "S256".to_owned()));
    q.push(("redirect_uri".to_owned(), redirect_uri.to_owned()));
    q.push(("response_type".to_owned(), "code".to_owned()));
    q.push(("state".to_owned(), pkce.state.clone()));
    if config.scopes.len() > 0 {
        let joined = crate::text::join_strings(&config.scopes, " ");
        q.push(("scope".to_owned(), joined));
    }
    assert(pairs_view(q@) =~= authorize_pairs(config@, pkce.challenge@, pkce.state@, redirect_uri@));
    append_pairs(config.authz_url.as_str(), &q)
}

/// The form of the token request: a public client exchanging the
/// authorization code with its PKCE verifier.
pub fn token_request_form(config: &OAuthConfig, code: &str, verifier: &str, redirect_uri: &str) -> (r: Vec<(String, String)>)
    ensures
        pairs_view(r@) == seq![
            ("grant_type"@, "authorization_code"@),
            ("client_id"@, config.client_id@),
            ("code"@, code@),
            ("code_verifier"@, verifier@),
            ("redirect_uri"@, redirect_uri@),
        ],
{
    let mut q: Vec<(String, String)> = Vec::new();
    q.push(("grant_type".to_owned(), "authorization_code".to_owned()));
    q.push(("client_id".to_owned(), config.client_id.clone()));
    q.push(("code".to_owned(), code.to_owned()));
    q.push(("code_verifier".to_owned(), verifier.to_owned()));
    q.push(("redirect_uri".to_owned(), redirect_uri.to_owned()));
    assert(pairs_view(q@) =~= seq![
        ("grant_type"@, "authorization_code"@),
        ("client_id"@, config.client_id@),
        ("code"@, code@),
        ("code_verifier"@, verifier@),
        ("redirect_uri"@, redirect_uri@),
    ]);
    q
}

/// The status is a success (2xx).
pub open spec fn is_success(status: u16) -> bool {
    200 <= status < 300
}

/// What the token endpoint answered, from its status and body text: a
/// refusal carries the status and the body (which cannot hold a token of
/// ours); a success must be a JSON document carrying `access_token`.
pub fn exchange_outcome(status: u16, body_text: &str) -> (r: Result<String, Error>)
    ensures
        !is_success(status) ==> (r matches Err(Error::Auth(m)) && m@ == "token exchange was refused (HTTP "@ + dec_nat(
            status as nat,
        ) + "): "@ + body_text@),
        is_success(status) ==> match json_parse_result(body_text@) {
            Ok(d) => match as_str_v(jget(d, "access_token"@)) {
                Some(t) => r matches Ok(s) && s@ == t,
                None => r matches Err(Error::Auth(m)) && m@ == "token response carried no access_token"@,
            },
            Err(_) => r matches Err(Error::Other(m)) && m@ == "invalid token response: error decoding response body"@,
        },
{
    if !(200 <= status && status < 300) {
        let mut m = "token exchange was refused (HTTP ".to_owned();
        push_dec_u64(&mut m, status as u64);
        push_str(&mut m, "): ");
        push_str(&mut m, body_text);
        return Err(Error::Auth(m));
    }
    match parse_json_text(body_text) {
        Ok(d) => {
            let token = match d.get("access_token") {
                Some(t) => t.as_str(),
                None => None,
            };
            match token {
                Some(t) => Ok(t.clone()),
                None => Err(Error::Auth("token response carried no access_token".to_owned())),
            }
        },
        Err(_) => Err(Error::Other("invalid token response: error decoding response body".to_owned())),
    }
}

/// The account-details URL of a host.
pub fn account_url(host: &str) -> (r: Result<String, Error>)
    ensures
        match url_parse_result(base_text(host@)) {
            Ok(b) => match url_join_result(b, "/api/v2/account/details"@) {
                Ok(u) => r matches Ok(s) && s@ == u,
                Err(e) => r matches Err(Error::Other(m)) && m@ == "cannot build account URL: "@ + e,
            },
            Err(e) => r matches Err(Error::Usage(m)) && m@ == "invalid host "@ + host@ + ": "@ + e,
        },
{
    let base = base_url(host)?;
    match join_url(base.as_str(), "/api/v2/account/details") {
        Ok(u) => Ok(u),
        Err(e) => {
            let mut m = "cannot build account URL: ".to_owned();
            push_str(&mut m, e.as_str());
            Err(Error::Other(m))
        },
    }
}

/// The account a verified token belongs to: `data.attributes.username`
/// when present, else `data.attributes.name`; `(unknown account)` when
/// the one looked at is not a string.
pub open spec fn account_name(doc: JsonV) -> Seq<char> {
    let found = match jpath(doc, seq!["data"@, "attributes"@, "username"@]) {
        Some(v) => Some(v),
        None => jpath(doc, seq!["data"@, "attributes"@, "name"@]),
    };
    match as_str_v(found) {
        Some(s) => s,
        None => "(unknown account)"@,
    }
}

/// What account verification answered, from its status and body text:
/// the account name on success, else an authentication error naming the
/// status.
pub fn verification_outcome(status: u16, body_text: &str) -> (r: Result<String, Error>)
    ensures
        !is_success(status) ==> (r matches Err(Error::Auth(m)) && m@
            == "the new token failed verification against account/details (HTTP "@ + dec_nat(status as nat) + ")"@),
        is_success(status) ==> match json_parse_result(body_text@) {
            Ok(d) => r matches Ok(s) && s@ == account_name(d),
            Err(_) => r matches Err(Error::Other(m)) && m@ == "invalid account response: error decoding response body"@,
        },
{
    if !(200 <= status && status < 300) {
        let mut m = "the new token failed verification against account/details (HTTP ".to_owned();
        push_dec_u64(&mut m, status as u64);
        push_str(&mut m, ")");
        return Err(Error::Auth(m));
    }
    match parse_json_text(body_text) {
        Ok(d) => {
            let found = match path_get(&d, &["data", "attributes", "username"]) {
                Some(v) => Some(v),
                None => path_get(&d, &["data", "attributes", "name"]),
            };
            assert(keys_view(["data", "attributes", "username"]@) =~= seq!["data"@, "attributes"@, "username"@]);
            assert(keys_view(["data", "attributes", "name"]@) =~= seq!["data"@, "attributes"@, "name"@]);
            match found {
                Some(v) => match v.as_str() {
                    Some(s) => Ok(s.clone()),
                    None => Ok("(unknown account)".to_owned()),
                },
                None => Ok("(unknown account)".to_owned()),
            }
        },
        Err(_) => Err(Error::Other("invalid account response: error decoding response body".to_owned())),
    }
}


/// The pairs `url::Url::query_pairs` decodes from the query of the URL
/// `url::Url::parse` makes of a text, or the text of the parse error.
pub uninterp spec fn url_query_result(s: Seq<char>) -> Result<Seq<(Seq<char>, Seq<char>)>, Seq<char>>;

/// Parses a URL with `url::Url::parse` and decodes its query pairs with
/// `query_pairs`. The contract only names the outcome.
#[verifier::external_body]
fn url_query_pairs(s: &str) -> (r: Result<Vec<(String, String)>, String>)
    ensures
        match r {
            Ok(p) => url_query_result(s@) == Ok::<Seq<(Seq<char>, Seq<char>)>, Seq<char>>(pairs_view(p@)),
            Err(e) => url_query_result(s@) == Err::<Seq<(Seq<char>, Seq<char>)>, Seq<char>>(e@),
        },
{
    url::Url::parse(s).map(|u| u.query_pairs().into_owned().collect()).map_err(|e| e.to_string())
}

/// The pairs `url::form_urlencoded::parse` decodes from a query text.
pub uninterp spec fn form_pairs(q: Seq<char>) -> Seq<(Seq<char>, Seq<char>)>;

/// Decodes a form-urlencoded query with `url::form_urlencoded::parse`.
/// The contract only names the pairs.
#[verifier::external_body]
fn decode_form(q: &str) -> (r: Vec<(String, String)>)
    ensures
        pairs_view(r@) == form_pairs(q@),
{
    url::form_urlencoded::parse(q.as_bytes()).into_owned().collect()
}

/// The value of the last pair named `key` (as collecting pairs into a
/// map keeps it).
pub open spec fn pair_value(pairs: Seq<(Seq<char>, Seq<char>)>, key: Seq<char>) -> Option<Seq<char>>
    decreases pairs.len(),
{
    if pairs.len() == 0 {
        None
    } else if pairs.last().0 == key {
        Some(pairs.last().1)
    } else {
        pair_value(pairs.drop_last(), key)
    }
}

/// The value of the last pair named `key`.
pub fn pair_get(pairs: &Vec<(String, String)>, key: &str) -> (r: Option<String>)
    ensures
        sview(r) == pair_value(pairs_view(pairs@), key@),
{
    let ghost pv = pairs_view(pairs@);
    let k = key.to_owned();
    let mut i = pairs.len();
    assert(pv.take(i as int) =~= pv);
    while i > 0
        invariant
            i <= pairs@.len(),
            pv == pairs_view(pairs@),
            pv.len() == pairs@.len(),
            k@ == key@,
            pair_value(pv, key@) == pair_value(pv.take(i as int), key@),
        decreases i,
    {
        assert(pv.take(i as int).drop_last() =~= pv.take(i - 1));
        assert(pv.take(i as int).last() == (pairs@[i - 1].0@, pairs@[i - 1].1@));
        if pairs[i - 1].0 == k {
            return Some(pairs[i - 1].1.clone());
        }
        i = i - 1;
    }
    None
}

/// The message when a pasted URL's state differs from this attempt's.
pub open spec fn state_mismatch_message() -> Seq<char> {
    "the pasted URL's state does not match this login attempt; refusing the code (possible cross-request forgery or a stale URL)"@
}

/// Reads the authorization code from pasted input. A full redirect URL
/// must echo this attempt's state, and is refused otherwise; a bare code
/// carries no state and is taken as it is. Answers the code and whether
/// the state was checked.
pub fn parse_pasted(input: &str, state: &str) -> (r: Result<(String, bool), Error>)
    ensures
        pasted_ok(input@, state@, r),
{
    if input.is_empty() {
        return Err(Error::Other("no authorization code provided".to_owned()));
    }
    if contains_text(input, "://") {
        let params = match url_query_pairs(input) {
            Ok(p) => p,
            Err(e) => {
                let mut m = "cannot parse the pasted URL: ".to_owned();
                push_str(&mut m, e.as_str());
                return Err(Error::Usage(m));
            },
        };
        let st = pair_get(&params, "state");
        let matches_state = match &st {
            Some(v) => v.as_str().to_owned() == state.to_owned(),
            None => false,
        };
        if !matches_state {
            return Err(
                Error::Auth(
                    "the pasted URL's state does not match this login attempt; refusing the code (possible cross-request forgery or a stale URL)".to_owned(),
                ),
            );
        }
        return match pair_get(&params, "code") {
            Some(c) => if !c.as_str().is_empty() {
                Ok((c, true))
            } else {
                Err(Error::Usage("the pasted URL carries no authorization code".to_owned()))
            },
            None => Err(Error::Usage("the pasted URL carries no authorization code".to_owned())),
        };
    }
    Ok((input.to_owned(), false))
}

/// Reads the code from a pasted line, ignoring surrounding whitespace.
pub fn pasted_code(line: &str, state: &str) -> (r: Result<(String, bool), Error>)
    ensures
        pasted_ok(trimmed(line@), state@, r),
{
    let t = trim(line);
    parse_pasted(t.as_str(), state)
}

/// Law (state check): a pasted URL carrying a state other than this
/// attempt's is refused, whatever code it carries.
pub proof fn law_pasted_url_with_wrong_state_is_refused(
    input: Seq<char>,
    state: Seq<char>,
    params: Seq<(Seq<char>, Seq<char>)>,
    r: Result<(String, bool), Error>,
)
    requires
        pasted_ok(input, state, r),
        input.len() > 0,
        has_infix(input, "://"@),
        url_query_result(input) == Ok::<Seq<(Seq<char>, Seq<char>)>, Seq<char>>(params),
        pair_value(params, "state"@) != Some(state),
    ensures
        r matches Err(Error::Auth(m)) && m@ == state_mismatch_message(),
{
}

/// `r` is what [`parse_pasted`] answers.
pub open spec fn pasted_ok(input: Seq<char>, state: Seq<char>, r: Result<(String, bool), Error>) -> bool {
    &&& input.len() == 0 ==> (r matches Err(Error::Other(m)) && m@ == "no authorization code provided"@)
    &&& input.len() > 0 && !has_infix(input, "://"@) ==> (r matches Ok(p) && p.0@ == input && !p.1)
    &&& input.len() > 0 && has_infix(input, "://"@) ==> match url_query_result(input) {
        Err(e) => r matches Err(Error::Usage(m)) && m@ == "cannot parse the pasted URL: "@ + e,
        Ok(params) => if pair_value(params, "state"@) != Some(state) {
            r matches Err(Error::Auth(m)) && m@ == state_mismatch_message()
        } else {
            match pair_value(params, "code"@) {
                Some(c) => if c.len() > 0 {
                    r matches Ok(p) && p.0@ == c && p.1
                } else {
                    r matches Err(Error::Usage(m)) && m@ == "the pasted URL carries no authorization code"@
                },
                None => r matches Err(Error::Usage(m)) && m@ == "the pasted URL carries no authorization code"@,
            }
        },
    }
}


/// How many whitespace characters `s` starts with.
pub open spec fn lead_ws(s: Seq<char>) -> nat
    decreases s.len(),
{
    if s.len() > 0 && is_ws(s[0]) {
        1 + lead_ws(s.drop_first())
    } else {
        0
    }
}

/// How many non-whitespace characters `s` starts with.
pub open spec fn lead_word(s: Seq<char>) -> nat
    decreases s.len(),
{
    if s.len() > 0 && !is_ws(s[0]) {
        1 + lead_word(s.drop_first())
    } else {
        0
    }
}

/// The second whitespace-separated word of a line, when it has one.
pub open spec fn second_word(s: Seq<char>) -> Option<Seq<char>> {
    let a = s.skip(lead_ws(s) as int);
    let b = a.skip(lead_word(a) as int);
    let c = b.skip(lead_ws(b) as int);
    if a.len() == 0 || c.len() == 0 {
        None
    } else {
        Some(c.take(lead_word(c) as int))
    }
}

/// How many characters precede the first `c` (all of them when none).
pub open spec fn before_char(s: Seq<char>, c: char) -> nat
    decreases s.len(),
{
    if s.len() == 0 || s[0] == c {
        0
    } else {
        1 + before_char(s.drop_first(), c)
    }
}

/// The text after the first `?`, when there is one.
pub open spec fn query_part(s: Seq<char>) -> Option<Seq<char>> {
    if s.contains('?') {
        Some(s.skip(before_char(s, '?') as int + 1))
    } else {
        None
    }
}

proof fn lemma_lead_ws_skip(v: Seq<char>, i: int)
    requires
        0 <= i < v.len(),
    ensures
        v.skip(i).drop_first() =~= v.skip(i + 1),
        v.skip(i)[0] == v[i],
{
}

/// The position after the whitespace run starting at `from`.
fn skip_ws(v: &Vec<char>, from: usize) -> (r: usize)
    requires
        from <= v@.len(),
    ensures
        r == from + lead_ws(v@.skip(from as int)),
        r <= v@.len(),
{
    let mut i = from;
    while i < v.len() && is_ws_char(v[i])
        invariant
            from <= i <= v@.len(),
            lead_ws(v@.skip(from as int)) == (i - from) + lead_ws(v@.skip(i as int)),
        decreases v@.len() - i,
    {
        proof {
            lemma_lead_ws_skip(v@, i as int);
        }
        i = i + 1;
    }
    proof {
        if i < v@.len() {
            lemma_lead_ws_skip(v@, i as int);
        }
    }
    i
}

/// The position after the word starting at `from`.
fn skip_word(v: &Vec<char>, from: usize) -> (r: usize)
    requires
        from <= v@.len(),
    ensures
        r == from + lead_word(v@.skip(from as int)),
        r <= v@.len(),
{
    let mut i = from;
    while i < v.len() && !is_ws_char(v[i])
        invariant
            from <= i <= v@.len(),
            lead_word(v@.skip(from as int)) == (i - from) + lead_word(v@.skip(i as int)),
        decreases v@.len() - i,
    {
        proof {
            lemma_lead_ws_skip(v@, i as int);
        }
        i = i + 1;
    }
    proof {
        if i < v@.len() {
            lemma_lead_ws_skip(v@, i as int);
        }
    }
    i
}

fn slice_chars(v: &Vec<char>, from: usize, to: usize) -> (r: String)
    requires
        from <= to <= v@.len(),
    ensures
        r@ == v@.subrange(from as int, to as int),
{
    let mut out: Vec<char> = Vec::new();
    let mut i = from;
    while i < to
        invariant
            from <= i <= to <= v@.len(),
            out@ == v@.subrange(from as int, i as int),
        decreases to - i,
    {
        out.push(v[i]);
        assert(out@ =~= v@.subrange(from as int, i + 1));
        i = i + 1;
    }
    crate::text::string_of(&out)
}

/// The second word of a line.
pub fn second_word_of(s: &str) -> (r: Option<String>)
    ensures
        sview(r) == second_word(s@),
{
    let v = chars_of(s);
    let a = skip_ws(&v, 0);
    assert(v@.skip(0) =~= s@);
    let b = skip_word(&v, a);
    let c = skip_ws(&v, b);
    proof {
        assert(s@.skip(a as int).skip(lead_word(s@.skip(a as int)) as int) =~= s@.skip(b as int));
        let bb = s@.skip(b as int);
        assert(bb.skip(lead_ws(bb) as int) =~= s@.skip(c as int));
    }
    if a == v.len() || c == v.len() {
        return None;
    }
    let d = skip_word(&v, c);
    let w = slice_chars(&v, c, d);
    assert(s@.skip(c as int).take(lead_word(s@.skip(c as int)) as int) =~= s@.subrange(c as int, d as int));
    Some(w)
}

proof fn lemma_before_char(s: Seq<char>, c: char, k: int)
    requires
        0 <= k <= s.len(),
        forall|j: int| 0 <= j < k ==> s[j] != c,
        k < s.len() ==> s[k] == c,
    ensures
        before_char(s, c) == k,
    decreases k,
{
    if k > 0 {
        lemma_before_char(s.drop_first(), c, k - 1);
    }
}

/// The text after the first `?`.
pub fn query_of(s: &str) -> (r: Option<String>)
    ensures
        sview(r) == query_part(s@),
{
    let v = chars_of(s);
    let mut k: usize = 0;
    while k < v.len() && v[k] != '?'
        invariant
            v@ == s@,
            k <= v@.len(),
            forall|j: int| 0 <= j < k ==> v@[j] != '?',
        decreases v@.len() - k,
    {
        k = k + 1;
    }
    proof {
        lemma_before_char(s@, '?', k as int);
    }
    if k == v.len() {
        assert(!s@.contains('?'));
        return None;
    }
    assert(s@.contains('?'));
    let q = slice_chars(&v, k + 1, v.len());
    assert(s@.skip(k + 1) =~= s@.subrange(k + 1, s@.len() as int));
    Some(q)
}

/// What to do with a request on the localhost callback.
#[derive(Debug)]
pub enum CallbackStep {
    /// Answer with this status and body, then keep listening.
    Reply(u16, String),
    /// The code arrived: answer 200 and finish.
    Accept(String),
}

/// Decides a callback request: its request line must carry a query
/// whose `state` is this attempt's and whose `code` is not empty.
pub fn callback_step(request: &str, state: &str) -> (r: CallbackStep)
    ensures
        match second_word(first_line(request@)) {
            None => r matches CallbackStep::Reply(s, b) && s == 400 && b@ == "Bad request"@,
            Some(path) => match query_part(path) {
                None => r matches CallbackStep::Reply(s, b) && s == 400 && b@ == "Bad request"@,
                Some(q) => if pair_value(form_pairs(q), "state"@) != Some(state@) {
                    r matches CallbackStep::Reply(s, b) && s == 400 && b@ == "State mismatch; check the CLI"@
                } else {
                    match pair_value(form_pairs(q), "code"@) {
                        Some(c) => if c.len() > 0 {
                            r matches CallbackStep::Accept(code) && code@ == c
                        } else {
                            r matches CallbackStep::Reply(s, b) && s == 400 && b@ == "Missing authorization code"@
                        },
                        None => r matches CallbackStep::Reply(s, b) && s == 400 && b@ == "Missing authorization code"@,
                    }
                },
            },
        },
{
    let line = subject_line(request);
    let path = match second_word_of(line.as_str()) {
        Some(p) => p,
        None => return CallbackStep::Reply(400, "Bad request".to_owned()),
    };
    let query = match query_of(path.as_str()) {
        Some(q) => q,
        None => return CallbackStep::Reply(400, "Bad request".to_owned()),
    };
    let params = decode_form(query.as_str());
    let st = pair_get(&params, "state");
    let ok_state = match &st {
        Some(v) => v.as_str().to_owned() == state.to_owned(),
        None => false,
    };
    if !ok_state {
        return CallbackStep::Reply(400, "State mismatch; check the CLI".to_owned());
    }
    match pair_get(&params, "code") {
        Some(c) => if !c.as_str().is_empty() {
            CallbackStep::Accept(c)
        } else {
            CallbackStep::Reply(400, "Missing authorization code".to_owned())
        },
        None => CallbackStep::Reply(400, "Missing authorization code".to_owned()),
    }
}

/// The body answered once the code arrived.
pub fn login_complete_body() -> (r: String)
    ensures
        r@ == "Login complete — return to the terminal."@,
{
    "Login complete — return to the terminal.".to_owned()
}

/// The HTTP response the callback answers with.
pub open spec fn http_response(status: u16, body: &str) -> Seq<char> {
    "HTTP/1.1 "@ + dec_nat(status as nat) + " "@ + (if status == 200 {
        "OK"@
    } else {
        "Bad Request"@
    }) + "\r\nContent-Type: text/html\r\nContent-Length: "@ + dec_nat(body.len() as nat) + "\r\nConnection: close\r\n\r\n"@ + body@
}

/// The HTTP response text for the callback's answer; the length counts
/// the body's bytes.
pub fn response_text(status: u16, body: &str) -> (r: String)
    ensures
        r@ == http_response(status, body),
{
    let mut s = "HTTP/1.1 ".to_owned();
    push_dec_u64(&mut s, status as u64);
    push_str(&mut s, " ");
    if status == 200 {
        push_str(&mut s, "OK");
    } else {
        push_str(&mut s, "Bad Request");
    }
    push_str(&mut s, "\r\nContent-Type: text/html\r\nContent-Length: ");
    let n = body.len();
    push_dec_u64(&mut s, n as u64);
    push_str(&mut s, "\r\nConnection: close\r\n\r\n");
    push_str(&mut s, body);
    assert(s@ =~= http_response(status, body));
    s
}

/// The redirect URI of the localhost callback on `port`.
pub fn redirect_uri(port: u16) -> (r: String)
    ensures
        r@ == "http://localhost:"@ + dec_nat(port as nat) + "/login"@,
{
    let mut s = "http://localhost:".to_owned();
    push_dec_u64(&mut s, port as u64);
    push_str(&mut s, "/login");
    s
}

/// What `tfrm logout` reports.
pub fn logout_message(host: &str, path: &str, removed: bool) -> (r: String)
    ensures
        removed ==> r@ == "Logged out of "@ + host@ + " (token removed from "@ + path@ + ")"@,
        !removed ==> r@ == "No stored token for "@ + host@ + " in "@ + path@ + "; nothing to do"@,
{
    if removed {
        let mut s = "Logged out of ".to_owned();
        push_str(&mut s, host);
        push_str(&mut s, " (token removed from ");
        push_str(&mut s, path);
        push_str(&mut s, ")");
        s
    } else {
        let mut s = "No stored token for ".to_owned();
        push_str(&mut s, host);
        push_str(&mut s, " in ");
        push_str(&mut s, path);
        push_str(&mut s, "; nothing to do");
        s
    }
}

} // verus!
