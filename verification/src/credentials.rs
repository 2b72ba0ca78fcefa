//! Terraform-compatible credential resolution: `TF_TOKEN_<host>`
//! environment variables (with terraform's host mangling), `credentials
//! "<host>"` blocks from the CLI config file, and `credentials.tfrc.json`
//! entries. Precedence: flag > environment > files. `credentials_helper`
//! blocks are recognised but never executed.

use vstd::prelude::*;
use crate::error::Error;
use crate::json::{Json, JsonV, json_parse_result, parse_json_text, jget, as_str_v, as_object_v, members_view, lemma_members_view};
use crate::order::{str_lt, str_less, lemma_str_order, sorted_strs, strs_view, insert_sorted_str};
use crate::text::{sview, trim, chars_of, string_of, push_str, has_prefix, has_suffix, ends_with, starts_with, skip_chars, trimmed};

verus! {

/// What `idna::domain_to_ascii` returns for a domain: its lowercase
/// ASCII (punycode) form, or `None` when the domain is invalid.
pub uninterp spec fn idna_ascii(domain: Seq<char>) -> Option<Seq<char>>;

/// Calls `idna::domain_to_ascii`. Claims only that the result is the
/// named function of the input; what that function computes (UTS 46
/// processing) is not stated.
#[verifier::external_body]
fn domain_to_ascii(domain: &str) -> (r: Option<String>)
    ensures
        sview(r) == idna_ascii(domain@),
{
    idna::domain_to_ascii(domain).ok()
}

/// The comparison form of a hostname: trimmed, then converted to its
/// lowercase punycode form; `None` when invalid or empty.
pub open spec fn normalized_host(raw: Seq<char>) -> Option<Seq<char>> {
    match idna_ascii(trimmed(raw)) {
        Some(a) => if a.len() > 0 {
            Some(a)
        } else {
            None
        },
        None => None,
    }
}

/// Normalize a hostname to its lowercase punycode comparison form,
/// tolerating both Unicode and pre-punycoded input.
pub fn normalize_host(raw: &str) -> (r: Option<String>)
    ensures
        sview(r) == normalized_host(raw@),
{
    let t = trim(raw);
    match domain_to_ascii(t.as_str()) {
        Some(a) => {
            if a.as_str().is_empty() {
                None
            } else {
                Some(a)
            }
        },
        None => None,
    }
}

/// Undo terraform's environment-variable host mangling: each `__`
/// (left to right, non-overlapping) becomes `-`, then each remaining
/// `_` becomes `.`.
pub open spec fn unmangle(s: Seq<char>) -> Seq<char>
    decreases s.len(),
{
    if s.len() == 0 {
        s
    } else if s.len() >= 2 && s[0] == '_' && s[1] == '_' {
        seq!['-'] + unmangle(s.skip(2))
    } else if s[0] == '_' {
        seq!['.'] + unmangle(s.skip(1))
    } else {
        seq![s[0]] + unmangle(s.skip(1))
    }
}

/// Terraform's host mangling for environment-variable names: `-`
/// becomes `__` and `.` becomes `_`.
pub open spec fn mangle(s: Seq<char>) -> Seq<char>
    decreases s.len(),
{
    if s.len() == 0 {
        s
    } else if s[0] == '-' {
        seq!['_', '_'] + mangle(s.skip(1))
    } else if s[0] == '.' {
        seq!['_'] + mangle(s.skip(1))
    } else {
        seq![s[0]] + mangle(s.skip(1))
    }
}

/// A host mangling can be undone: no `_`, and no `.` followed by `.`
/// or `-` (those spell runs of underscores that read back otherwise).
pub open spec fn unambiguous_host(h: Seq<char>) -> bool {
    &&& forall|i: int| 0 <= i < h.len() ==> #[trigger] h[i] != '_'
    &&& forall|i: int| 0 <= i < h.len() - 1 && #[trigger] h[i] == '.' ==> h[i + 1] != '.' && h[i + 1] != '-'
}

proof fn lemma_mangle_first(s: Seq<char>)
    requires
        s.len() > 0,
        s[0] != '_',
    ensures
        mangle(s).len() > 0,
        (mangle(s)[0] == '_') == (s[0] == '-' || s[0] == '.'),
{
}

/// Law: unmangling undoes mangling for every host that mangles
/// unambiguously.
pub proof fn law_mangle_round_trip(h: Seq<char>)
    requires
        unambiguous_host(h),
    ensures
        unmangle(mangle(h)) == h,
    decreases h.len(),
{
    if h.len() > 0 {
        let rest = h.skip(1);
        assert(unambiguous_host(rest)) by {
            assert forall|i: int| 0 <= i < rest.len() implies #[trigger] rest[i] != '_' by {
                assert(rest[i] == h[i + 1]);
            }
            assert forall|i: int| 0 <= i < rest.len() - 1 && #[trigger] rest[i] == '.' implies rest[i + 1] != '.'
                && rest[i + 1] != '-' by {
                assert(rest[i] == h[i + 1]);
                assert(rest[i + 1] == h[i + 2]);
            }
        }
        law_mangle_round_trip(rest);
        let m = mangle(rest);
        if h[0] == '-' {
            let full = seq!['_', '_'] + m;
            assert(mangle(h) == full);
            assert(full.skip(2) =~= m);
            assert(unmangle(full) == seq!['-'] + unmangle(m));
        } else if h[0] == '.' {
            let full = seq!['_'] + m;
            assert(mangle(h) == full);
            assert(full.skip(1) =~= m);
            if rest.len() > 0 {
                assert(rest[0] == h[1]);
                lemma_mangle_first(rest);
                assert(full[1] != '_');
            }
            assert(unmangle(full) == seq!['.'] + unmangle(m));
        } else {
            let full = seq![h[0]] + m;
            assert(mangle(h) == full);
            assert(full.skip(1) =~= m);
            assert(unmangle(full) == seq![h[0]] + unmangle(m));
        }
        assert(seq![h[0]] + rest =~= h);
    }
}

/// Undo terraform's environment-variable host mangling.
pub fn unmangle_env_host(raw: &str) -> (r: String)
    ensures
        r@ == unmangle(raw@),
{
    let v = chars_of(raw);
    let mut out: Vec<char> = Vec::new();
    let mut i: usize = 0;
    assert(raw@.skip(0) =~= raw@);
    assert(out@ + raw@ =~= raw@);
    while i < v.len()
        invariant
            v@ == raw@,
            i <= v@.len(),
            unmangle(raw@) == out@ + unmangle(raw@.skip(i as int)),
        decreases v@.len() - i,
    {
        let ghost rest = raw@.skip(i as int);
        if v[i] == '_' && i + 1 < v.len() && v[i + 1] == '_' {
            out.push('-');
            assert(rest.skip(2) =~= raw@.skip(i + 2));
            i = i + 2;
        } else {
            if v[i] == '_' {
                out.push('.');
            } else {
                out.push(v[i]);
            }
            assert(rest.skip(1) =~= raw@.skip(i + 1));
            i = i + 1;
        }
        assert(unmangle(raw@) =~= out@ + unmangle(raw@.skip(i as int)));
    }
    assert(raw@.skip(v@.len() as int) =~= Seq::<char>::empty());
    assert(out@ + Seq::<char>::empty() =~= out@);
    string_of(&out)
}

/// Terraform's host mangling for environment-variable names.
pub fn mangle_env_host(host: &str) -> (r: String)
    ensures
        r@ == mangle(host@),
{
    let v = chars_of(host);
    let mut out: Vec<char> = Vec::new();
    let mut i: usize = 0;
    assert(host@.skip(0) =~= host@);
    assert(out@ + host@ =~= host@);
    while i < v.len()
        invariant
            v@ == host@,
            i <= v@.len(),
            mangle(host@) == out@ + mangle(host@.skip(i as int)),
        decreases v@.len() - i,
    {
        let ghost rest = host@.skip(i as int);
        if v[i] == '-' {
            out.push('_');
            out.push('_');
        } else if v[i] == '.' {
            out.push('_');
        } else {
            out.push(v[i]);
        }
        assert(rest.skip(1) =~= host@.skip(i + 1));
        i = i + 1;
        assert(mangle(host@) =~= out@ + mangle(host@.skip(i as int)));
    }
    assert(host@.skip(v@.len() as int) =~= Seq::<char>::empty());
    assert(out@ + Seq::<char>::empty() =~= out@);
    string_of(&out)
}

/// Where a token came from. Never carries the token itself.
#[derive(Debug, Clone, PartialEq, Eq)]
pub enum CredentialSource {
    /// `--token` flag.
    Flag,
    /// `TF_TOKEN_<host>` environment variable (the actual variable name).
    Env(String),
    /// A credentials block or entry in this file.
    File(String),
}

/// How a credential source is described to the user.
pub open spec fn source_text(s: CredentialSource) -> Seq<char> {
    match s {
        CredentialSource::Flag => "--token flag"@,
        CredentialSource::Env(var) => "environment variable "@ + var@,
        CredentialSource::File(path) => "credentials file "@ + path@,
    }
}

impl CredentialSource {
    /// The user-facing description of this source.
    pub fn describe(&self) -> (r: String)
        ensures
            r@ == source_text(*self),
    {
        match self {
            CredentialSource::Flag => "--token flag".to_owned(),
            CredentialSource::Env(var) => {
                let mut s = "environment variable ".to_owned();
                push_str(&mut s, var.as_str());
                s
            },
            CredentialSource::File(path) => {
                let mut s = "credentials file ".to_owned();
                push_str(&mut s, path.as_str());
                s
            },
        }
    }
}

/// A resolved token plus its provenance.
#[derive(Debug, Clone)]
pub struct Credential {
    pub token: String,
    pub source: CredentialSource,
}

/// The `TF_TOKEN_` prefix of credential environment variables.
pub open spec fn env_prefix() -> Seq<char> {
    seq!['T', 'F', '_', 'T', 'O', 'K', 'E', 'N', '_']
}

/// Whether an environment variable of this name carries a token for
/// the (normalized) host.
#[verifier::opaque]
pub open spec fn env_names_host(name: Seq<char>, host: Seq<char>) -> bool {
    has_prefix(name, env_prefix()) && normalized_host(unmangle(name.skip(9))) == Some(host)
}

/// Variable `i` is the one chosen for `host`: it names the host, and
/// every variable that names the host sorts after it (or has the same
/// name and comes later).
pub open spec fn is_env_pick(env: Seq<(String, String)>, host: Seq<char>, i: int) -> bool {
    &&& 0 <= i < env.len()
    &&& env_names_host(env[i].0@, host)
    &&& forall|j: int|
        0 <= j < env.len() && env_names_host(#[trigger] env[j].0@, host) ==> !str_lt(
            env[j].0@,
            env[i].0@,
        ) && (env[j].0@ == env[i].0@ ==> i <= j)
}

/// No variable names the host.
pub open spec fn no_env_match(env: Seq<(String, String)>, host: Seq<char>) -> bool {
    forall|j: int| 0 <= j < env.len() ==> !env_names_host(#[trigger] env[j].0@, host)
}

/// Token entries read from CLI configuration files, in reading order
/// (`(normalized host, token, file)`), plus the last configured
/// `credentials_helper` name. Later entries override earlier ones.
#[derive(Debug, Clone)]
pub struct FileCredentials {
    pub tokens: Vec<(String, String, String)>,
    pub helper: Option<String>,
}

/// The last entry for `host`: `(token, file)`.
pub open spec fn file_token(tokens: Seq<(String, String, String)>, host: Seq<char>) -> Option<
    (Seq<char>, Seq<char>),
>
    decreases tokens.len(),
{
    if tokens.len() == 0 {
        None
    } else if tokens.last().0@ == host {
        Some((tokens.last().1@, tokens.last().2@))
    } else {
        file_token(tokens.drop_last(), host)
    }
}

/// One parsed HCL block: its identifier, its labels, and its attributes
/// (`Some(text)` for attributes whose value is a string literal).
#[derive(Debug, Clone)]
pub struct HclBlock {
    pub identifier: String,
    pub labels: Vec<String>,
    pub attributes: Vec<(String, Option<String>)>,
}

/// The view of one HCL block.
pub open spec fn block_view(b: HclBlock) -> (Seq<char>, Seq<Seq<char>>, Seq<(Seq<char>, Option<Seq<char>>)>) {
    (b.identifier@, strs_view(b.labels@), b.attributes@.map_values(|a: (String, Option<String>)| (a.0@, sview(a.1))))
}

/// The views of a list of blocks.
pub open spec fn blocks_view(v: Seq<HclBlock>) -> Seq<(Seq<char>, Seq<Seq<char>>, Seq<(Seq<char>, Option<Seq<char>>)>)> {
    v.map_values(|b: HclBlock| block_view(b))
}

/// What `hcl::from_str::<hcl::Body>` yields for a text, as its top-level
/// blocks; `None` when the text does not parse.
pub uninterp spec fn hcl_top_blocks(text: Seq<char>) -> Option<Seq<(Seq<char>, Seq<Seq<char>>, Seq<(Seq<char>, Option<Seq<char>>)>)>>;

/// Calls `hcl::from_str::<hcl::Body>` and copies out each top-level
/// block's identifier, labels and attributes (string-literal values as
/// text). Claims only that the result is the named function of the text.
#[verifier::external_body]
pub(crate) fn parse_hcl_blocks(text: &str) -> (r: Option<Vec<HclBlock>>)
    ensures
        match r {
            Some(v) => hcl_top_blocks(text@) == Some(blocks_view(v@)),
            None => hcl_top_blocks(text@) is None,
        },
{
    let body = hcl::from_str::<hcl::Body>(text).ok()?;
    Some(body.blocks().map(|b| HclBlock {
        identifier: b.identifier().to_string(),
        labels: b.labels().iter().map(|l| l.as_str().to_string()).collect(),
        attributes: b.body().attributes().map(|a| (a.key().to_string(), match a.expr() {
            hcl::Expression::String(s) => Some(s.clone()),
            _ => None,
        })).collect(),
    }).collect())
}

/// The token entries one `credentials "<host>"` block contributes: one
/// per `token = "<string>"` attribute, in order, when the label is a
/// valid host.
pub open spec fn block_entries(b: HclBlock, path: Seq<char>) -> Seq<(Seq<char>, Seq<char>, Seq<char>)> {
    if b.identifier@ == "credentials"@ && b.labels@.len() > 0 && normalized_host(b.labels@[0]@) is Some {
        attr_entries(b.attributes@, normalized_host(b.labels@[0]@).unwrap(), path)
    } else {
        Seq::empty()
    }
}

/// The `token` string attributes among `attrs`, as entries for `host`.
pub open spec fn attr_entries(attrs: Seq<(String, Option<String>)>, host: Seq<char>, path: Seq<char>) -> Seq<(Seq<char>, Seq<char>, Seq<char>)>
    decreases attrs.len(),
{
    if attrs.len() == 0 {
        Seq::empty()
    } else {
        let rest = attr_entries(attrs.drop_last(), host, path);
        let a = attrs.last();
        if a.0@ == "token"@ && a.1 is Some {
            rest.push((host, a.1.unwrap()@, path))
        } else {
            rest
        }
    }
}

/// All entries a sequence of blocks contributes, in order.
#[verifier::opaque]
pub open spec fn hcl_entries(blocks: Seq<HclBlock>, path: Seq<char>) -> Seq<(Seq<char>, Seq<char>, Seq<char>)>
    decreases blocks.len(),
{
    if blocks.len() == 0 {
        Seq::empty()
    } else {
        hcl_entries(blocks.drop_last(), path) + block_entries(blocks.last(), path)
    }
}

/// The helper named by the last `credentials_helper "<name>"` block, or
/// `prev` when there is none.
#[verifier::opaque]
pub open spec fn hcl_helper(blocks: Seq<HclBlock>, prev: Option<Seq<char>>) -> Option<Seq<char>>
    decreases blocks.len(),
{
    if blocks.len() == 0 {
        prev
    } else {
        let b = blocks.last();
        if b.identifier@ == "credentials_helper"@ && b.labels@.len() > 0 {
            Some(b.labels@[0]@)
        } else {
            hcl_helper(blocks.drop_last(), prev)
        }
    }
}

/// The views of the token entries.
pub open spec fn tokens_view(t: Seq<(String, String, String)>) -> Seq<(Seq<char>, Seq<char>, Seq<char>)> {
    t.map_values(|e: (String, String, String)| (e.0@, e.1@, e.2@))
}

/// Whether a configuration file is read as JSON (by its name).
pub open spec fn is_json_file(path: Seq<char>) -> bool {
    has_suffix(path, ".json"@)
}

/// Whether a configuration file is read as JSON (by its name).
pub fn is_json_path(path: &str) -> (r: bool)
    ensures
        r == is_json_file(path@),
{
    ends_with(path, ".json")
}

/// The token entries of a `credentials.tfrc.json`-style document: each
/// member of its `credentials` object whose name is a valid host and
/// whose `token` is a string, in member order.
pub open spec fn json_entries(members: Seq<(Seq<char>, JsonV)>, path: Seq<char>) -> Seq<(Seq<char>, Seq<char>, Seq<char>)>
    decreases members.len(),
{
    if members.len() == 0 {
        Seq::empty()
    } else {
        let rest = json_entries(members.drop_last(), path);
        let m = members.last();
        if normalized_host(m.0) is Some && as_str_v(jget(m.1, "token"@)) is Some {
            rest.push((normalized_host(m.0).unwrap(), as_str_v(jget(m.1, "token"@)).unwrap(), path))
        } else {
            rest
        }
    }
}

/// The entries a JSON configuration document contributes.
pub open spec fn json_doc_entries(doc: JsonV, path: Seq<char>) -> Seq<(Seq<char>, Seq<char>, Seq<char>)> {
    match as_object_v(jget(doc, "credentials"@)) {
        Some(m) => json_entries(m, path),
        None => Seq::empty(),
    }
}

/// The helper a JSON configuration document names: the first member of
/// its `credentials_helper` object, or `prev`.
pub open spec fn json_doc_helper(doc: JsonV, prev: Option<Seq<char>>) -> Option<Seq<char>> {
    match as_object_v(jget(doc, "credentials_helper"@)) {
        Some(m) => if m.len() > 0 {
            Some(m[0].0)
        } else {
            prev
        },
        None => prev,
    }
}

proof fn lemma_hcl_step(blocks: Seq<HclBlock>, i: int, path: Seq<char>, prev: Option<Seq<char>>)
    requires
        0 <= i < blocks.len(),
    ensures
        hcl_entries(blocks.take(i + 1), path) == hcl_entries(blocks.take(i), path) + block_entries(blocks[i], path),
        hcl_helper(blocks.take(i + 1), prev) == (if blocks[i].identifier@ == "credentials_helper"@ && blocks[i].labels@.len() > 0 {
            Some(blocks[i].labels@[0]@)
        } else {
            hcl_helper(blocks.take(i), prev)
        }),
{
    reveal(hcl_entries);
    reveal(hcl_helper);
    assert(blocks.take(i + 1).drop_last() =~= blocks.take(i));
    assert(blocks.take(i + 1).last() == blocks[i]);
}

proof fn lemma_hcl_empty(blocks: Seq<HclBlock>, path: Seq<char>, prev: Option<Seq<char>>)
    ensures
        hcl_entries(blocks.take(0), path) == Seq::<(Seq<char>, Seq<char>, Seq<char>)>::empty(),
        hcl_helper(blocks.take(0), prev) == prev,
{
    reveal(hcl_entries);
    reveal(hcl_helper);
}

impl FileCredentials {
    /// No entries, no helper.
    pub fn new() -> (r: FileCredentials)
        ensures
            r.tokens@.len() == 0,
            r.helper is None,
    {
        FileCredentials { tokens: Vec::new(), helper: None }
    }

    /// The token recorded last for a normalized host, with its file.
    pub fn lookup(&self, host: &String) -> (r: Option<(String, String)>)
        ensures
            match r {
                Some(p) => file_token(self.tokens@, host@) == Some((p.0@, p.1@)),
                None => file_token(self.tokens@, host@) is None,
            },
    {
        let mut i = self.tokens.len();
        assert(self.tokens@.take(i as int) =~= self.tokens@);
        while i > 0
            invariant
                i <= self.tokens@.len(),
                file_token(self.tokens@, host@) == file_token(self.tokens@.take(i as int), host@),
            decreases i,
        {
            let ghost t = self.tokens@.take(i as int);
            assert(t.drop_last() =~= self.tokens@.take(i - 1));
            if self.tokens[i - 1].0 == *host {
                return Some((self.tokens[i - 1].1.clone(), self.tokens[i - 1].2.clone()));
            }
            i = i - 1;
        }
        None
    }

    /// Merge the blocks of an HCL CLI configuration file read from
    /// `path`: `credentials "<host>" { token = "…" }` entries and the
    /// name of a `credentials_helper` block. A file that does not parse
    /// contributes nothing.
    pub fn merge_hcl(&mut self, text: &str, path: &str)
        ensures
            hcl_top_blocks(text@) is None ==> final(self).tokens@ == old(self).tokens@
                && final(self).helper == old(self).helper,
            hcl_top_blocks(text@) is Some ==> exists|blocks: Seq<HclBlock>|
                #[trigger] blocks_view(blocks) == hcl_top_blocks(text@).unwrap()
                && tokens_view(final(self).tokens@) == tokens_view(old(self).tokens@) + hcl_entries(blocks, path@)
                && sview(final(self).helper) == hcl_helper(blocks, sview(old(self).helper)),
    {
        match parse_hcl_blocks(text) {
            Some(blocks) => {
                self.merge_hcl_blocks(&blocks, path);
                assert(blocks_view(blocks@) == hcl_top_blocks(text@).unwrap());
            },
            None => {},
        }
    }

    /// Merge already-parsed HCL blocks read from `path`.
    pub fn merge_hcl_blocks(&mut self, blocks: &Vec<HclBlock>, path: &str)
        ensures
            tokens_view(final(self).tokens@) == tokens_view(old(self).tokens@) + hcl_entries(blocks@, path@),
            sview(final(self).helper) == hcl_helper(blocks@, sview(old(self).helper)),
    {
        let ghost start = tokens_view(self.tokens@);
        let ghost start_helper = sview(self.helper);
        let mut i: usize = 0;
        proof {
            lemma_hcl_empty(blocks@, path@, start_helper);
        }
        assert(start + hcl_entries(blocks@.take(0), path@) =~= start);
        while i < blocks.len()
            invariant
                i <= blocks@.len(),
                tokens_view(self.tokens@) == start + hcl_entries(blocks@.take(i as int), path@),
                sview(self.helper) == hcl_helper(blocks@.take(i as int), start_helper),
            decreases blocks@.len() - i,
        {
            proof {
                lemma_hcl_step(blocks@, i as int, path@, start_helper);
            }
            let ghost before = tokens_view(self.tokens@);
            self.merge_block(&blocks[i], path);
            assert(tokens_view(self.tokens@) =~= start + hcl_entries(blocks@.take(i + 1), path@));
            i = i + 1;
        }
        assert(blocks@.take(blocks@.len() as int) =~= blocks@);
    }

    fn merge_block(&mut self, b: &HclBlock, path: &str)
        ensures
            tokens_view(final(self).tokens@) == tokens_view(old(self).tokens@) + block_entries(*b, path@),
            sview(final(self).helper) == (if b.identifier@ == "credentials_helper"@ && b.labels@.len() > 0 {
                Some(b.labels@[0]@)
            } else {
                sview(old(self).helper)
            }),
    {
        let is_cred = b.identifier == "credentials".to_owned();
        let is_helper = b.identifier == "credentials_helper".to_owned();
        if is_helper && b.labels.len() > 0 {
            self.helper = Some(b.labels[0].clone());
        }
        if !is_cred || b.labels.len() == 0 {
            assert(tokens_view(self.tokens@) =~= tokens_view(old(self).tokens@) + block_entries(*b, path@));
            return;
        }
        match normalize_host(b.labels[0].as_str()) {
            Some(host) => {
                self.push_token_attrs(&b.attributes, &host, path);
            },
            None => {
                assert(tokens_view(self.tokens@) =~= tokens_view(old(self).tokens@) + block_entries(*b, path@));
            },
        }
    }

    fn push_token_attrs(&mut self, attrs: &Vec<(String, Option<String>)>, host: &String, path: &str)
        ensures
            tokens_view(final(self).tokens@) == tokens_view(old(self).tokens@) + attr_entries(attrs@, host@, path@),
            final(self).helper == old(self).helper,
    {
        let ghost start = tokens_view(self.tokens@);
        let mut j: usize = 0;
        assert(start + attr_entries(attrs@.take(0), host@, path@) =~= start);
        while j < attrs.len()
            invariant
                j <= attrs@.len(),
                tokens_view(self.tokens@) == start + attr_entries(attrs@.take(j as int), host@, path@),
                self.helper == old(self).helper,
            decreases attrs@.len() - j,
        {
            let ghost pre = self.tokens@;
            assert(attrs@.take(j + 1).drop_last() =~= attrs@.take(j as int));
            assert(attrs@.take(j + 1).last() == attrs@[j as int]);
            let a = &attrs[j];
            if a.0 == "token".to_owned() {
                match &a.1 {
                    Some(tok) => {
                        self.tokens.push((host.clone(), tok.clone(), path.to_owned()));
                        assert(tokens_view(self.tokens@) =~= tokens_view(pre).push((host@, tok@, path@)));
                    },
                    None => {},
                }
            }
            assert(tokens_view(self.tokens@) =~= start + attr_entries(attrs@.take(j + 1), host@, path@));
            j = j + 1;
        }
        assert(attrs@.take(attrs@.len() as int) =~= attrs@);
    }

    fn json_member_entry(m: &(String, Json), path: &str) -> (r: Option<(String, String, String)>)
        ensures
            match r {
                Some(e) => normalized_host(m.0@) is Some && as_str_v(jget(m.1@, "token"@)) is Some
                    && (e.0@, e.1@, e.2@) == (normalized_host(m.0@).unwrap(), as_str_v(jget(m.1@, "token"@)).unwrap(), path@),
                None => !(normalized_host(m.0@) is Some && as_str_v(jget(m.1@, "token"@)) is Some),
            },
    {
        match normalize_host(m.0.as_str()) {
            Some(h) => match m.1.get("token") {
                Some(t) => match t.as_str() {
                    Some(tok) => Some((h, tok.clone(), path.to_owned())),
                    None => None,
                },
                None => None,
            },
            None => None,
        }
    }

    /// Merge the text of a JSON CLI configuration file read from `path`
    /// (`credentials.tfrc.json` shape); a text that does not parse adds
    /// nothing.
    pub fn merge_json(&mut self, text: &str, path: &str)
        ensures
            match json_parse_result(text@) {
                Ok(doc) => tokens_view(final(self).tokens@) == tokens_view(old(self).tokens@) + json_doc_entries(doc, path@)
                    && sview(final(self).helper) == json_doc_helper(doc, sview(old(self).helper)),
                Err(_) => *final(self) == *old(self),
            },
    {
        match parse_json_text(text) {
            Ok(doc) => self.merge_json_doc(&doc, path),
            Err(_) => {},
        }
    }

    /// Merge a parsed JSON CLI configuration document read from `path`
    /// (`credentials.tfrc.json` shape).
    #[verifier::rlimit(40)]
    pub fn merge_json_doc(&mut self, doc: &Json, path: &str)
        ensures
            tokens_view(final(self).tokens@) == tokens_view(old(self).tokens@) + json_doc_entries(doc@, path@),
            sview(final(self).helper) == json_doc_helper(doc@, sview(old(self).helper)),
    {
        let ghost start = tokens_view(self.tokens@);
        let creds = match doc.get("credentials") {
            Some(c) => c.as_object(),
            None => None,
        };
        match creds {
            Some(members) => {
                proof { lemma_members_view(members@); }
                let mut i: usize = 0;
                assert(start + json_entries(members_view(members@).take(0), path@) =~= start);
                while i < members.len()
                    invariant
                        i <= members@.len(),
                        members_view(members@).len() == members@.len(),
                        forall|k: int| 0 <= k < members@.len() ==> #[trigger] members_view(members@)[k] == (members@[k].0@, members@[k].1@),
                        tokens_view(self.tokens@) == start + json_entries(members_view(members@).take(i as int), path@),
                        self.helper == old(self).helper,
                    decreases members@.len() - i,
                {
                    let ghost mv = members_view(members@);
                    let ghost pre = self.tokens@;
                    assert(mv.take(i + 1).drop_last() =~= mv.take(i as int));
                    assert(mv.take(i + 1).last() == mv[i as int]);
                    match Self::json_member_entry(&members[i], path) {
                        Some(e) => {
                            self.tokens.push(e);
                            assert(tokens_view(self.tokens@) =~= tokens_view(pre).push((e.0@, e.1@, e.2@)));
                        },
                        None => {},
                    }
                    assert(tokens_view(self.tokens@) =~= start + json_entries(mv.take(i + 1), path@));
                    i = i + 1;
                }
                assert(members_view(members@).take(members@.len() as int) =~= members_view(members@));
            },
            None => {
                assert(tokens_view(self.tokens@) =~= start + json_doc_entries(doc@, path@));
            },
        }
        let helpers = match doc.get("credentials_helper") {
            Some(h) => h.as_object(),
            None => None,
        };
        match helpers {
            Some(members) => {
                proof { lemma_members_view(members@); }
                if members.len() > 0 {
                    self.helper = Some(members[0].0.clone());
                }
            },
            None => {},
        }
    }
}


/// The exit-3 message when no source has a token for `host`: the host,
/// the configured helper if any, the `tfrm login` hint and the
/// environment variable that would supply one.
pub open spec fn no_credentials_message(host: Seq<char>, helper: Option<Seq<char>>, host_norm: Seq<char>) -> Seq<char> {
    "no credentials found for "@ + host + (match helper {
        Some(h) => "; a credentials_helper \""@ + h
            + "\" is configured, but tfrm does not execute credential helpers in v0.1"@,
        None => Seq::empty(),
    }) + ". Run `tfrm login "@ + host + "`, or set TF_TOKEN_"@ + mangle(host_norm)
}

/// Credential lookup with every input injectable. The environment is a
/// snapshot of `(name, value)` pairs; file credentials are merged in by
/// the caller from the files [`CredentialLookup::credential_files`] lists.
#[derive(Debug)]
pub struct CredentialLookup {
    /// Environment snapshot, scanned for `TF_TOKEN_*`.
    pub env: Vec<(String, String)>,
    /// `TF_CLI_CONFIG_FILE` override. When set, the config dir is
    /// skipped, as terraform treats the override as "ignore the default
    /// config files".
    pub cli_config_override: Option<String>,
    /// Default CLI config file (`~/.terraformrc`).
    pub default_config_file: Option<String>,
    /// Config dir (`~/.terraform.d`), scanned for `*.tfrc` and
    /// `*.tfrc.json` files.
    pub config_dir: Option<String>,
    /// Credentials merged from the configuration files.
    pub files: FileCredentials,
}

/// Whether a file in the config dir is read for credentials.
pub open spec fn is_tfrc_file(path: Seq<char>) -> bool {
    has_suffix(path, ".tfrc"@) || has_suffix(path, ".tfrc.json"@)
}

/// The main configuration file: the override, else the default file.
pub open spec fn main_config(l: CredentialLookup) -> Option<Seq<char>> {
    match l.cli_config_override {
        Some(p) => Some(p@),
        None => sview(l.default_config_file),
    }
}

proof fn lemma_env_pick_step(
    env: Seq<(String, String)>,
    host: Seq<char>,
    i: int,
    old_best: Option<usize>,
    new_best: Option<usize>,
    m: bool,
    less: bool,
)
    requires
        0 <= i < env.len(),
        i < usize::MAX,
        m == env_names_host(env[i].0@, host),
        match old_best {
            Some(b) => b < i && is_env_pick(env.take(i), host, b as int) && (m ==> less == str_lt(env[i].0@, env[b as int].0@)),
            None => no_env_match(env.take(i), host),
        },
        new_best == (if m {
            match old_best {
                Some(b) => if less { Some(i as usize) } else { Some(b) },
                None => Some(i as usize),
            }
        } else {
            old_best
        }),
    ensures
        match new_best {
            Some(b) => b < i + 1 && is_env_pick(env.take(i + 1), host, b as int),
            None => no_env_match(env.take(i + 1), host),
        },
{
    let pre = env.take(i);
    let cur = env.take(i + 1);
    assert(cur =~= pre.push(env[i]));
    assert(cur[i] == env[i]);
    match old_best {
        Some(b) => {
            let bn = env[b as int].0@;
            let inm = env[i].0@;
            if m && less {
                assert forall|j: int| 0 <= j < cur.len() && env_names_host(#[trigger] cur[j].0@, host)
                    implies !str_lt(cur[j].0@, inm) && (cur[j].0@ == inm ==> i <= j) by {
                    if j < i {
                        assert(cur[j] == pre[j]);
                        assert(!str_lt(pre[j].0@, bn));
                        crate::order::lemma_str_lt_total(pre[j].0@, bn);
                        if pre[j].0@ == bn {
                            crate::order::lemma_str_lt_asymmetric(inm, bn);
                        } else {
                            crate::order::lemma_str_lt_transitive(inm, bn, pre[j].0@);
                            crate::order::lemma_str_lt_asymmetric(inm, pre[j].0@);
                        }
                        if pre[j].0@ == inm {
                            crate::order::lemma_str_lt_irreflexive(inm);
                        }
                    } else {
                        crate::order::lemma_str_lt_irreflexive(inm);
                    }
                }
                assert(is_env_pick(cur, host, i));
            } else if m {
                assert forall|j: int| 0 <= j < cur.len() && env_names_host(#[trigger] cur[j].0@, host)
                    implies !str_lt(cur[j].0@, bn) && (cur[j].0@ == bn ==> b <= j) by {
                    if j < i {
                        assert(cur[j] == pre[j]);
                    }
                }
                assert(cur[b as int] == pre[b as int]);
                assert(pre[b as int] == env[b as int]);
            } else {
                assert forall|j: int| 0 <= j < cur.len() && env_names_host(#[trigger] cur[j].0@, host)
                    implies !str_lt(cur[j].0@, bn) && (cur[j].0@ == bn ==> b <= j) by {
                    if j < i {
                        assert(cur[j] == pre[j]);
                    }
                }
                assert(cur[b as int] == pre[b as int]);
            }
        },
        None => {
            if m {
                let inm = env[i].0@;
                assert forall|j: int| 0 <= j < cur.len() && env_names_host(#[trigger] cur[j].0@, host)
                    implies !str_lt(cur[j].0@, inm) && (cur[j].0@ == inm ==> i <= j) by {
                    if j < i {
                        assert(cur[j] == pre[j]);
                        assert(!env_names_host(pre[j].0@, host));
                    } else {
                        crate::order::lemma_str_lt_irreflexive(inm);
                    }
                }
            } else {
                assert forall|j: int| 0 <= j < cur.len() implies !env_names_host(#[trigger] cur[j].0@, host) by {
                    if j < i {
                        assert(cur[j] == pre[j]);
                    }
                }
            }
        },
    }
}

/// The `*.tfrc` / `*.tfrc.json` files among `dir_files`, sorted.
fn tfrc_files_sorted(dir_files: &Vec<String>) -> (r: Vec<String>)
    ensures
        sorted_strs(strs_view(r@)),
        forall|p: Seq<char>| strs_view(r@).contains(p) <==> (is_tfrc_file(p) && strs_view(dir_files@).contains(p)),
{
    let mut sorted: Vec<String> = Vec::new();
    let mut i: usize = 0;
    while i < dir_files.len()
        invariant
            i <= dir_files@.len(),
            sorted_strs(strs_view(sorted@)),
            forall|p: Seq<char>| strs_view(sorted@).contains(p) <==> (is_tfrc_file(p)
                && exists|k: int| 0 <= k < i && #[trigger] dir_files@[k]@ == p),
        decreases dir_files@.len() - i,
    {
        let f = &dir_files[i];
        let ghost before = strs_view(sorted@);
        let keep = ends_with(f.as_str(), ".tfrc") || ends_with(f.as_str(), ".tfrc.json");
        assert(keep == is_tfrc_file(f@));
        assert(f@ == dir_files@[i as int]@);
        if keep {
            insert_sorted_str(&mut sorted, f);
        }
        assert(forall|p: Seq<char>| strs_view(sorted@).contains(p) <==> (before.contains(p) || (keep && p == f@)));
        let ghost old_i = i;
        i = i + 1;
        proof {
            assert forall|p: Seq<char>| strs_view(sorted@).contains(p) <==> (is_tfrc_file(p)
                && exists|k: int| 0 <= k < i && #[trigger] dir_files@[k]@ == p) by {
                assert(before.contains(p) <==> (is_tfrc_file(p) && exists|k: int| 0 <= k < old_i && #[trigger] dir_files@[k]@ == p));
                if exists|k: int| 0 <= k < i && #[trigger] dir_files@[k]@ == p {
                    let k = choose|k: int| 0 <= k < i && #[trigger] dir_files@[k]@ == p;
                    if k < old_i {
                        assert(exists|k2: int| 0 <= k2 < old_i && #[trigger] dir_files@[k2]@ == p);
                    }
                }
                if exists|k: int| 0 <= k < old_i && #[trigger] dir_files@[k]@ == p {
                    let k = choose|k: int| 0 <= k < old_i && #[trigger] dir_files@[k]@ == p;
                    assert(0 <= k < i && dir_files@[k]@ == p);
                }
                if p == f@ {
                    assert(dir_files@[old_i as int]@ == p);
                }
            }
        }
    }
    proof {
        assert forall|p: Seq<char>| strs_view(dir_files@).contains(p) <==> exists|k: int|
            0 <= k < dir_files@.len() && #[trigger] dir_files@[k]@ == p by {
            if strs_view(dir_files@).contains(p) {
                let k = choose|k: int| 0 <= k < strs_view(dir_files@).len() && strs_view(dir_files@)[k] == p;
                assert(dir_files@[k]@ == p);
            }
            if exists|k: int| 0 <= k < dir_files@.len() && #[trigger] dir_files@[k]@ == p {
                let k = choose|k: int| 0 <= k < dir_files@.len() && #[trigger] dir_files@[k]@ == p;
                assert(strs_view(dir_files@)[k] == p);
            }
        }
    }
    sorted
}

impl CredentialLookup {
    /// A lookup over explicit inputs and no file credentials yet.
    pub fn with_sources(
        env: Vec<(String, String)>,
        cli_config_override: Option<String>,
        default_config_file: Option<String>,
        config_dir: Option<String>,
    ) -> (r: Self)
        ensures
            r.env == env,
            r.cli_config_override == cli_config_override,
            r.default_config_file == default_config_file,
            r.config_dir == config_dir,
            r.files.tokens@.len() == 0,
            r.files.helper is None,
    {
        CredentialLookup {
            env,
            cli_config_override,
            default_config_file,
            config_dir,
            files: FileCredentials::new(),
        }
    }

    /// Replace the file credentials with those merged from the files.
    pub fn with_file_credentials(self, files: FileCredentials) -> (r: Self)
        ensures
            r.env == self.env,
            r.cli_config_override == self.cli_config_override,
            r.default_config_file == self.default_config_file,
            r.config_dir == self.config_dir,
            r.files == files,
    {
        CredentialLookup { files, ..self }
    }

    /// The files to merge credentials from, in merge order: the main
    /// configuration file (the override, else the default) when it is a
    /// file, then, unless the override is set, the `*.tfrc` /
    /// `*.tfrc.json` files among `dir_files` (the regular files of the
    /// config dir) in name order.
    pub fn credential_files(&self, main_is_file: bool, dir_files: &Vec<String>) -> (r: Vec<String>)
        ensures
            ({
                let head: Seq<Seq<char>> = if main_is_file && main_config(*self) is Some {
                    seq![main_config(*self).unwrap()]
                } else {
                    Seq::empty()
                };
                let tail = strs_view(r@).skip(head.len() as int);
                &&& head.len() <= r@.len()
                &&& strs_view(r@).take(head.len() as int) == head
                &&& sorted_strs(tail)
                &&& forall|p: Seq<char>| tail.contains(p) <==> (self.cli_config_override is None
                    && self.config_dir is Some && is_tfrc_file(p) && strs_view(dir_files@).contains(p))
            }),
    {
        let mut out: Vec<String> = Vec::new();
        let main = match &self.cli_config_override {
            Some(p) => Some(p),
            None => self.default_config_file.as_ref(),
        };
        if main_is_file {
            match main {
                Some(p) => out.push(p.clone()),
                None => {},
            }
        }
        let ghost head = strs_view(out@);
        assert(head =~= (if main_is_file && main_config(*self) is Some {
            seq![main_config(*self).unwrap()]
        } else {
            Seq::<Seq<char>>::empty()
        }));
        let mut sorted: Vec<String> = if self.cli_config_override.is_none() && self.config_dir.is_some() {
            tfrc_files_sorted(dir_files)
        } else {
            Vec::new()
        };
        let ghost tail = strs_view(sorted@);
        out.append(&mut sorted);
        proof {
            assert(strs_view(out@) =~= head + tail);
            assert(strs_view(out@).skip(head.len() as int) =~= tail);
            assert(strs_view(out@).take(head.len() as int) =~= head);
        }
        out
    }

    fn env_match(name: &String, host_norm: &String) -> (r: bool)
        ensures
            r == env_names_host(name@, host_norm@),
    {
        proof {
            reveal_strlit("TF_TOKEN_");
            reveal(env_names_host);
        }
        assert("TF_TOKEN_"@ =~= env_prefix());
        if !starts_with(name.as_str(), "TF_TOKEN_") {
            return false;
        }
        let raw = skip_chars(name.as_str(), 9);
        let unm = unmangle_env_host(raw.as_str());
        match normalize_host(unm.as_str()) {
            Some(h) => h == *host_norm,
            None => false,
        }
    }

    /// The `TF_TOKEN_*` variable for a normalized host: among the
    /// variables naming it, the one with the smallest name (the first
    /// such in the snapshot when names repeat).
    pub fn env_credential(&self, host_norm: &String) -> (r: Option<Credential>)
        ensures
            match r {
                Some(c) => exists|i: int|
                    is_env_pick(self.env@, host_norm@, i) && c.token@ == self.env@[i].1@
                        && (c.source matches CredentialSource::Env(n) && n@ == self.env@[i].0@),
                None => no_env_match(self.env@, host_norm@),
            },
    {
        let mut best: Option<usize> = None;
        let mut i: usize = 0;
        while i < self.env.len()
            invariant
                i <= self.env@.len(),
                match best {
                    Some(b) => b < i && is_env_pick(self.env@.take(i as int), host_norm@, b as int),
                    None => no_env_match(self.env@.take(i as int), host_norm@),
                },
            decreases self.env@.len() - i,
        {
            let m = Self::env_match(&self.env[i].0, host_norm);
            let mut less = false;
            match best {
                Some(b) => {
                    if m {
                        less = str_less(self.env[i].0.as_str(), self.env[b].0.as_str());
                    }
                },
                None => {},
            }
            let ghost old_best = best;
            if m {
                match best {
                    Some(_) => {
                        if less {
                            best = Some(i);
                        }
                    },
                    None => {
                        best = Some(i);
                    },
                }
            }
            proof {
                lemma_env_pick_step(self.env@, host_norm@, i as int, old_best, best, m, less);
            }
            i = i + 1;
        }
        assert(self.env@.take(self.env@.len() as int) =~= self.env@);
        match best {
            Some(b) => Some(
                Credential {
                    token: self.env[b].1.clone(),
                    source: CredentialSource::Env(self.env[b].0.clone()),
                },
            ),
            None => None,
        }
    }
}


impl CredentialLookup {
    /// Resolve a token for `host`: the flag, else the environment, else
    /// the file credentials. On no match, an exit-3 error with the
    /// `tfrm login` hint, naming any configured `credentials_helper`.
    pub fn resolve(&self, host: &str, flag_token: Option<&str>) -> (r: Result<Credential, Error>)
        ensures
            flag_token is Some ==> (r matches Ok(c) && c.token@ == flag_token.unwrap()@
                && c.source is Flag),
            flag_token is None && normalized_host(host@) is None ==> (r matches Err(Error::Usage(m))
                && m@ == "invalid hostname: "@ + host@),
            flag_token is None && normalized_host(host@) is Some ==> ({
                let h = normalized_host(host@).unwrap();
                if !no_env_match(self.env@, h) {
                    r matches Ok(c) && exists|i: int|
                        is_env_pick(self.env@, h, i) && c.token@ == self.env@[i].1@
                            && (c.source matches CredentialSource::Env(n) && n@ == self.env@[i].0@)
                } else if file_token(self.files.tokens@, h) is Some {
                    r matches Ok(c) && c.token@ == file_token(self.files.tokens@, h).unwrap().0
                        && (c.source matches CredentialSource::File(q) && q@ == file_token(self.files.tokens@, h).unwrap().1)
                } else {
                    r matches Err(Error::Auth(m)) && m@ == no_credentials_message(host@, sview(self.files.helper), h)
                }
            }),
    {
        match flag_token {
            Some(t) => {
                return Ok(Credential { token: t.to_owned(), source: CredentialSource::Flag });
            },
            None => {},
        }
        let host_norm = match normalize_host(host) {
            Some(h) => h,
            None => {
                let mut m = "invalid hostname: ".to_owned();
                push_str(&mut m, host);
                return Err(Error::Usage(m));
            },
        };
        match self.env_credential(&host_norm) {
            Some(c) => {
                return Ok(c);
            },
            None => {},
        }
        match self.files.lookup(&host_norm) {
            Some((token, path)) => {
                return Ok(Credential { token, source: CredentialSource::File(path) });
            },
            None => {},
        }
        let mut msg = "no credentials found for ".to_owned();
        push_str(&mut msg, host);
        match &self.files.helper {
            Some(h) => {
                push_str(&mut msg, "; a credentials_helper \"");
                push_str(&mut msg, h.as_str());
                push_str(&mut msg, "\" is configured, but tfrm does not execute credential helpers in v0.1");
            },
            None => {},
        }
        push_str(&mut msg, ". Run `tfrm login ");
        push_str(&mut msg, host);
        push_str(&mut msg, "`, or set TF_TOKEN_");
        let mangled = mangle_env_host(host_norm.as_str());
        push_str(&mut msg, mangled.as_str());
        assert(msg@ =~= no_credentials_message(host@, sview(self.files.helper), host_norm@));
        Err(Error::Auth(msg))
    }
}


/// Law (file precedence): when the entries of a later file follow those
/// of earlier ones, a host's token is the later file's when it has one
/// for the host, else what the earlier files give.
pub proof fn law_later_file_overrides(earlier: Seq<(String, String, String)>, later: Seq<(String, String, String)>, host: Seq<char>)
    ensures
        file_token(earlier + later, host) == match file_token(later, host) {
            Some(t) => Some(t),
            None => file_token(earlier, host),
        },
    decreases later.len(),
{
    if later.len() == 0 {
        assert(earlier + later =~= earlier);
    } else {
        assert((earlier + later).drop_last() =~= earlier + later.drop_last());
        assert((earlier + later).last() == later.last());
        law_later_file_overrides(earlier, later.drop_last(), host);
    }
}

} // verus!
