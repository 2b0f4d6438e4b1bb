//! From a token of the secret server to the API key for cloud agents.
use crate::bao::{errors_in, errors_of};
use crate::digits::{decimal, to_decimal};
use crate::http::{is_success, succeeded, HttpReply, HttpRequest, Method, ReplyView, RequestView};
use crate::json::{
    child_in, child_of, json_parsed, member_str, opt_child_of, parse_json, rendered, Json, JsonView,
};
use crate::params::{lookup, map_of, pairs_view, Params};
use crate::path::{below, join_path};
use crate::split::{first_chars, head, texts};
use crate::text::{
    concat, concat3, drop_leading, drop_trailing, is_empty, lemma_trimmed_edges, nonblank, opt_text,
    opt_view, or_else, own_opt, trim, trim_leading, trim_opt, trim_trailing, trimmed, CharClass,
};
use vstd::prelude::*;
use vstd::string::*;

verus! {

/// Why signing in failed.
#[derive(Debug)]
pub enum AuthError {
    Message(String),
}

impl AuthError {
    /// What to tell the user.
    pub open spec fn text(self) -> Seq<char> {
        match self {
            AuthError::Message(s) => s@,
        }
    }

    /// What to tell the user.
    pub fn message(&self) -> (r: &str)
        ensures
            r@ == self.text(),
    {
        match self {
            AuthError::Message(s) => s.as_str(),
        }
    }
}

impl From<String> for AuthError {
    fn from(s: String) -> (r: AuthError) {
        AuthError::Message(s)
    }
}

impl vstd::std_specs::convert::FromSpecImpl<String> for AuthError {
    open spec fn obeys_from_spec() -> bool {
        true
    }

    open spec fn from_spec(s: String) -> AuthError {
        AuthError::Message(s)
    }
}

impl From<&str> for AuthError {
    fn from(s: &str) -> (r: AuthError)
        ensures
            r.text() == s@,
    {
        AuthError::Message(s.to_owned())
    }
}

/// A text does not fix the `String` that holds it, so what `from` gives is said of
/// the error's text.
impl vstd::std_specs::convert::FromSpecImpl<&str> for AuthError {
    open spec fn obeys_from_spec() -> bool {
        false
    }

    open spec fn from_spec(s: &str) -> AuthError {
        arbitrary()
    }
}

/// The state of the secret server.
#[derive(Debug, Clone, Copy)]
pub struct Health {
    pub initialized: bool,
    pub sealed: bool,
}

/// The server address without the slashes behind it.
pub open spec fn base_of(address: Seq<char>) -> Seq<char> {
    drop_trailing(address, CharClass::Only('/'))
}

/// The address of a path on the server.
pub open spec fn api_url(address: Seq<char>, path: Seq<char>) -> Seq<char> {
    base_of(address) + "/v1/"@ + drop_leading(path, CharClass::Only('/'))
}

/// The address of a path on the server.
fn make_url(address: &str, path: &str) -> (r: String)
    ensures
        r@ == api_url(address@, path@),
{
    concat3(
        trim_trailing(address, CharClass::Only('/')),
        "/v1/",
        trim_leading(path, CharClass::Only('/')),
    )
}

/// The request for the server's state.
pub open spec fn health_request_of(address: Seq<char>, token: Seq<char>) -> RequestView {
    RequestView {
        method: Method::Get,
        url: api_url(address, "sys/health"@),
        headers: seq![("X-Vault-Token"@, trimmed(token))],
        query: seq![
            ("standbyok"@, "true"@),
            ("sealedcode"@, "200"@),
            ("uninitcode"@, "200"@),
        ],
        body: None,
        basic_user: None,
    }
}

/// The request for the stored API keys.
pub open spec fn keys_request_of(address: Seq<char>, token: Seq<char>) -> RequestView {
    RequestView {
        method: Method::Get,
        url: api_url(address, "secret/data/ai-api-keys"@),
        headers: seq![("X-Vault-Token"@, trimmed(token)), ("X-Vault-Request"@, "true"@)],
        query: Seq::empty(),
        body: None,
        basic_user: None,
    }
}

/// The request for the server's state.
pub fn health_request(address: &str, token: &str) -> (r: HttpRequest)
    ensures
        r@ == health_request_of(address@, token@),
{
    let mut headers: Vec<(String, String)> = Vec::new();
    headers.push(("X-Vault-Token".to_owned(), trim(token).to_owned()));
    let mut query: Vec<(String, String)> = Vec::new();
    query.push(("standbyok".to_owned(), "true".to_owned()));
    query.push(("sealedcode".to_owned(), "200".to_owned()));
    query.push(("uninitcode".to_owned(), "200".to_owned()));
    let r = HttpRequest {
        method: Method::Get,
        url: make_url(address, "sys/health"),
        headers,
        query,
        body: None,
        basic_user: None,
    };
    proof {
        let want = health_request_of(address@, token@);
        assert(pairs_view(r.headers@) =~= want.headers);
        assert(pairs_view(r.query@) =~= want.query);
    }
    r
}

/// The request for the stored API keys.
pub fn keys_request(address: &str, token: &str) -> (r: HttpRequest)
    ensures
        r@ == keys_request_of(address@, token@),
{
    let mut headers: Vec<(String, String)> = Vec::new();
    headers.push(("X-Vault-Token".to_owned(), trim(token).to_owned()));
    headers.push(("X-Vault-Request".to_owned(), "true".to_owned()));
    let r = HttpRequest {
        method: Method::Get,
        url: make_url(address, "secret/data/ai-api-keys"),
        headers,
        query: Vec::new(),
        body: None,
        basic_user: None,
    };
    proof {
        let want = keys_request_of(address@, token@);
        assert(pairs_view(r.headers@) =~= want.headers);
        assert(pairs_view(r.query@) =~= want.query);
    }
    r
}

/// The reply to a request for the server's state: its text, and what was read
/// from it, or the message of the error in reading it.
pub struct HealthReply {
    pub body: String,
    pub parsed: Result<Health, String>,
}

/// What an outcome of asking for the server's state says against going on.
pub open spec fn health_objection(outcome: Result<HealthReply, String>) -> Option<Seq<char>> {
    match outcome {
        Err(e) => Some("health check failed: "@ + e@),
        Ok(reply) => match reply.parsed {
            Err(e) => Some("health parse error: "@ + e@ + ": "@ + reply.body@),
            Ok(h) => if h.sealed {
                Some("OpenBao is sealed"@)
            } else if !h.initialized {
                Some("OpenBao is not initialized"@)
            } else {
                None
            },
        },
    }
}

/// What an outcome of asking for the server's state says against going on.
pub fn check_health(outcome: &Result<HealthReply, String>) -> (r: Option<AuthError>)
    ensures
        match r {
            Some(e) => health_objection(*outcome) == Some(e.text()),
            None => health_objection(*outcome) is None,
        },
{
    match outcome {
        Err(e) => Some(AuthError::Message(concat("health check failed: ", e.as_str()))),
        Ok(reply) => match &reply.parsed {
            Err(e) => {
                let mut out = concat("health parse error: ", e.as_str());
                out.append(": ");
                out.append(reply.body.as_str());
                Some(AuthError::Message(out))
            },
            Ok(h) => if h.sealed {
                Some(AuthError::from("OpenBao is sealed"))
            } else if !h.initialized {
                Some(AuthError::from("OpenBao is not initialized"))
            } else {
                None
            },
        },
    }
}

/// The errors that a reply tells of: those that it lists, or its only one.
pub open spec fn told_errors(v: JsonView) -> Option<Seq<char>> {
    or_else(errors_of(v), member_str(v, "error"@))
}

/// The errors that a reply's text tells of.
pub open spec fn told_errors_of_text(body: Seq<char>) -> Option<Seq<char>> {
    match json_parsed(body) {
        Ok(v) => told_errors(v),
        Err(_) => None,
    }
}

/// The errors that a reply tells of.
pub fn told_errors_in(v: &Json) -> (r: Option<String>)
    ensures
        opt_text(r) == told_errors(v@),
{
    match errors_in(v) {
        Some(e) => Some(e),
        None => own_opt(v.get_str("error")),
    }
}

/// The errors that a reply's text tells of.
pub fn extract_errors(body: &str) -> (r: Option<String>)
    ensures
        opt_text(r) == told_errors_of_text(body@),
{
    match parse_json(body) {
        Ok(v) => told_errors_in(&v),
        Err(_) => None,
    }
}

/// The standard words for a status: what `reqwest::StatusCode::canonical_reason` returns.
pub uninterp spec fn canonical_reason_of(status: u16) -> Option<Seq<char>>;

/// `reqwest::StatusCode::canonical_reason`: the standard words for a status,
/// where it is a status and has any. They depend on the status alone.
#[verifier::external_body]
fn canonical_reason(status: u16) -> (r: Option<String>)
    ensures
        opt_text(r) == canonical_reason_of(status),
{
    let code = reqwest::StatusCode::from_u16(status).ok()?;
    code.canonical_reason().map(|s| s.to_string())
}

/// What a refusal says, given the standard words for its status: the errors
/// that it tells of; the first 300 characters of it; the standard words; the status.
pub open spec fn refusal_given(r: ReplyView, reason: Option<Seq<char>>) -> Seq<char> {
    match told_errors_of_text(r.body) {
        Some(e) => e,
        None => if r.body.len() > 0 {
            head(r.body, 300)
        } else {
            match reason {
                Some(words) => words,
                None => "HTTP "@ + decimal(r.status as nat),
            }
        },
    }
}

/// What a refusal says, given the standard words for its status.
pub fn refusal_text(reply: &HttpReply, reason: Option<String>) -> (r: String)
    ensures
        r@ == refusal_given(reply@, opt_text(reason)),
{
    match extract_errors(reply.body.as_str()) {
        Some(e) => e,
        None => if !is_empty(reply.body.as_str()) {
            first_chars(reply.body.as_str(), 300)
        } else {
            match reason {
                Some(words) => words,
                None => concat("HTTP ", to_decimal(reply.status as u64).as_str()),
            }
        },
    }
}

/// The value that a reply holds, or why it holds none; a blank reply holds nothing.
pub open spec fn reply_value(outcome: Result<ReplyView, Seq<char>>) -> Result<JsonView, Seq<char>> {
    match outcome {
        Err(e) => Err("request failed: "@ + e),
        Ok(r) => if !succeeded(r.status) {
            Err(refusal_given(r, canonical_reason_of(r.status)))
        } else if trimmed(r.body).len() == 0 {
            Ok(JsonView::Null)
        } else {
            match json_parsed(r.body) {
                Ok(v) => Ok(v),
                Err(m) => Err("parse error: "@ + m),
            }
        },
    }
}

/// The outcome of a request, by its characters.
pub open spec fn plain_outcome(o: Result<HttpReply, String>) -> Result<ReplyView, Seq<char>> {
    match o {
        Ok(reply) => Ok(reply@),
        Err(e) => Err(e@),
    }
}

/// The value that a reply holds, or why it holds none.
pub fn read_value(outcome: &Result<HttpReply, String>) -> (r: Result<Json, AuthError>)
    ensures
        match r {
            Ok(v) => reply_value(plain_outcome(*outcome)) == Ok::<JsonView, Seq<char>>(v@),
            Err(e) => reply_value(plain_outcome(*outcome)) == Err::<JsonView, Seq<char>>(e.text()),
        },
{
    match outcome {
        Err(e) => Err(AuthError::Message(concat("request failed: ", e.as_str()))),
        Ok(reply) => {
            if !is_success(reply.status) {
                let reason = canonical_reason(reply.status);
                return Err(AuthError::Message(refusal_text(reply, reason)));
            }
            if is_empty(trim(reply.body.as_str())) {
                return Ok(Json::Null);
            }
            match parse_json(reply.body.as_str()) {
                Ok(v) => Ok(v),
                Err(m) => Err(AuthError::Message(concat("parse error: ", m.as_str()))),
            }
        },
    }
}

/// A value as the text of a secret.
pub open spec fn secret_text(v: JsonView) -> Seq<char> {
    match v {
        JsonView::Str(s) => s,
        JsonView::Null => ""@,
        other => rendered(other),
    }
}

/// A value as the text of a secret: a string as it is, null as nothing, and
/// everything else as JSON.
pub fn value_to_string(v: &Json) -> (r: String)
    ensures
        r@ == secret_text(v@),
{
    match v {
        Json::Str(s) => s.clone(),
        Json::Null => "".to_owned(),
        _ => v.render(),
    }
}

/// The members of an object as secrets.
pub open spec fn secrets(members: Seq<(Seq<char>, JsonView)>) -> Seq<(Seq<char>, Seq<char>)> {
    members.map_values(|m: (Seq<char>, JsonView)| (m.0, secret_text(m.1)))
}

/// The stored API keys in a reply.
pub open spec fn keys_of(v: JsonView) -> Map<Seq<char>, Seq<char>> {
    match opt_child_of(child_of(v, "data"@), "data"@) {
        Some(JsonView::Object(members)) => map_of(secrets(members)),
        _ => Map::empty(),
    }
}

/// The stored API keys in a reply.
pub fn keys_in(v: &Json) -> (r: Params)
    ensures
        r@ == keys_of(v@),
{
    let mut out = Params::new();
    if let Some(found) = child_in(v.child("data"), "data") {
        if let Json::Object(members) = found {
            let ghost all = secrets(found@->Object_0);
            let ghost ms = found@->Object_0;
            let mut i: usize = 0;
            while i < members.len()
                invariant
                    i <= members@.len(),
                    *found == Json::Object(*members),
                    found@ == JsonView::Object(ms),
                    ms.len() == members@.len(),
                    all == secrets(ms),
                    out@ == map_of(all.take(i as int)),
                decreases members.len() - i,
            {
                proof {
                    assert(ms[i as int] == (members@[i as int].0@, members@[i as int].1@));
                    assert(all.take(i + 1).drop_last() =~= all.take(i as int));
                    assert(all.take(i + 1).last() == (
                        members@[i as int].0@,
                        secret_text(members@[i as int].1@),
                    ));
                }
                let value = value_to_string(&members[i].1);
                out.insert(members[i].0.clone(), value);
                i += 1;
            }
            assert(all.take(i as int) =~= all);
        }
    }
    out
}

/// The API key among the stored keys: that of the first field that holds one.
pub open spec fn picked_key(keys: Map<Seq<char>, Seq<char>>) -> Option<Seq<char>> {
    or_else(
        nonblank(lookup(keys, "CURSOR_API_KEY"@)),
        or_else(
            nonblank(lookup(keys, "cursor_api_key"@)),
            nonblank(lookup(keys, "CURSOR_TOKEN"@)),
        ),
    )
}

/// A stored key without the white space around it, where anything is left.
fn key_at(keys: &Params, field: &str) -> (r: Option<String>)
    ensures
        opt_text(r) == nonblank(lookup(keys@, field@)),
{
    match keys.get(field) {
        Some(v) => trim_opt(Some(v.as_str())),
        None => None,
    }
}

/// The API key among the stored keys: `CURSOR_API_KEY`, else `cursor_api_key`,
/// else `CURSOR_TOKEN`.
pub fn pick_cursor_key(keys: &Params) -> (r: Option<String>)
    ensures
        opt_text(r) == picked_key(keys@),
{
    if let Some(k) = key_at(keys, "CURSOR_API_KEY") {
        return Some(k);
    }
    if let Some(k) = key_at(keys, "cursor_api_key") {
        return Some(k);
    }
    key_at(keys, "CURSOR_TOKEN")
}

/// Where `CURSOR_API_KEY` holds a key, it is taken, whatever the other fields hold.
pub proof fn law_first_field_wins(keys: Map<Seq<char>, Seq<char>>, key: Seq<char>)
    requires
        lookup(keys, "CURSOR_API_KEY"@) == Some(key),
        trimmed(key).len() > 0,
    ensures
        picked_key(keys) == Some(trimmed(key)),
{
}

/// The API key in the reply with the stored keys, or why there is none.
pub open spec fn fetched_key(v: JsonView) -> Result<Seq<char>, Seq<char>> {
    match picked_key(keys_of(v)) {
        Some(k) => Ok(k),
        None => Err(
            "no Cursor API key in secret/data/ai-api-keys (expected one of: CURSOR_API_KEY, cursor_api_key, CURSOR_TOKEN)"@,
        ),
    }
}

/// A text or an error, by its characters.
pub open spec fn auth_result(r: Result<String, AuthError>) -> Result<Seq<char>, Seq<char>> {
    match r {
        Ok(s) => Ok(s@),
        Err(e) => Err(e.text()),
    }
}

/// The API key in the reply with the stored keys, or why there is none.
pub fn cursor_key_in(v: &Json) -> (r: Result<String, AuthError>)
    ensures
        auth_result(r) == fetched_key(v@),
{
    let keys = keys_in(v);
    match pick_cursor_key(&keys) {
        Some(k) => Ok(k),
        None => Err(
            AuthError::from(
                "no Cursor API key in secret/data/ai-api-keys (expected one of: CURSOR_API_KEY, cursor_api_key, CURSOR_TOKEN)",
            ),
        ),
    }
}

/// What to do next to fetch the API key.
pub enum FetchStep {
    /// Ask for the server's state.
    AskHealth(HttpRequest),
    /// Ask for the stored keys.
    AskKeys(HttpRequest),
    /// The API key, or why there is none.
    Done(Result<String, AuthError>),
}

/// What a step holds.
pub enum FetchView {
    AskHealth(RequestView),
    AskKeys(RequestView),
    Done(Result<Seq<char>, Seq<char>>),
}

impl View for FetchStep {
    type V = FetchView;

    open spec fn view(&self) -> FetchView {
        match self {
            FetchStep::AskHealth(r) => FetchView::AskHealth(r@),
            FetchStep::AskKeys(r) => FetchView::AskKeys(r@),
            FetchStep::Done(r) => FetchView::Done(auth_result(*r)),
        }
    }
}

/// What to do next, given the outcomes so far. The keys are only asked for once
/// the server is known to be open.
pub open spec fn fetch_next(
    address: Seq<char>,
    token: Seq<char>,
    health: Option<&Result<HealthReply, String>>,
    keys: Option<&Result<HttpReply, String>>,
) -> FetchView {
    match health {
        None => FetchView::AskHealth(health_request_of(address, token)),
        Some(h) => match health_objection(*h) {
            Some(e) => FetchView::Done(Err(e)),
            None => match keys {
                None => FetchView::AskKeys(keys_request_of(address, token)),
                Some(k) => FetchView::Done(
                    match reply_value(plain_outcome(*k)) {
                        Ok(v) => fetched_key(v),
                        Err(e) => Err(e),
                    },
                ),
            },
        },
    }
}

/// The next step in fetching the API key from the secret server at `address`,
/// given the outcomes of the requests that have been sent.
pub fn fetch_cursor_api_key(
    address: &str,
    bao_token: &str,
    health: Option<&Result<HealthReply, String>>,
    keys: Option<&Result<HttpReply, String>>,
) -> (r: FetchStep)
    ensures
        r@ == fetch_next(address@, bao_token@, health, keys),
{
    match health {
        None => FetchStep::AskHealth(health_request(address, bao_token)),
        Some(h) => match check_health(h) {
            Some(e) => FetchStep::Done(Err(e)),
            None => match keys {
                None => FetchStep::AskKeys(keys_request(address, bao_token)),
                Some(k) => match read_value(k) {
                    Ok(v) => FetchStep::Done(cursor_key_in(&v)),
                    Err(e) => FetchStep::Done(Err(e)),
                },
            },
        },
    }
}

/// The address of the secret server, given what the environment says.
pub open spec fn bao_addr_of(bao: Option<Seq<char>>, vault: Option<Seq<char>>) -> Seq<char> {
    let raw = match or_else(bao, vault) {
        Some(a) => a,
        None => "https://openbao.boxd.sh"@,
    };
    drop_trailing(trimmed(raw), CharClass::Only('/'))
}

/// The address of the secret server: `BAO_ADDR`, else `VAULT_ADDR`, else the default.
pub fn resolve_bao_addr(bao: Option<&str>, vault: Option<&str>) -> (r: String)
    ensures
        r@ == bao_addr_of(opt_view(bao), opt_view(vault)),
{
    let raw = match bao {
        Some(a) => a,
        None => match vault {
            Some(a) => a,
            None => "https://openbao.boxd.sh",
        },
    };
    trim_trailing(trim(raw), CharClass::Only('/')).to_owned()
}

/// The first text that is not blank, without the white space around it.
pub open spec fn first_nonblank(files: Seq<Option<Seq<char>>>) -> Seq<char>
    decreases files.len(),
{
    if files.len() == 0 {
        ""@
    } else {
        match nonblank(files[0]) {
            Some(t) => t,
            None => first_nonblank(files.drop_first()),
        }
    }
}

/// The contents of the files that could be read, by their characters.
pub open spec fn contents_view(files: Seq<Option<String>>) -> Seq<Option<Seq<char>>> {
    files.map_values(|f: Option<String>| opt_text(f))
}

/// The stored token, given what the environment says and the token files hold.
pub open spec fn token_of_env(
    bao: Option<Seq<char>>,
    vault: Option<Seq<char>>,
    files: Seq<Option<Seq<char>>>,
) -> Seq<char> {
    match nonblank(or_else(bao, vault)) {
        Some(t) => t,
        None => first_nonblank(files),
    }
}

/// The stored token: `BAO_TOKEN`, else `VAULT_TOKEN`, else what the first of the
/// token files holds that holds anything. Empty where there is none.
pub fn load_bao_token(bao: Option<&str>, vault: Option<&str>, files: &Vec<Option<String>>) -> (r:
    String)
    ensures
        r@ == token_of_env(opt_view(bao), opt_view(vault), contents_view(files@)),
{
    let set = match bao {
        Some(t) => Some(t),
        None => vault,
    };
    if let Some(t) = trim_opt(set) {
        return t;
    }
    let ghost all = contents_view(files@);
    let mut i: usize = 0;
    assert(all.skip(0) =~= all);
    while i < files.len()
        invariant
            i <= files@.len(),
            all == contents_view(files@),
            nonblank(or_else(opt_view(bao), opt_view(vault))) is None,
            first_nonblank(all.skip(i as int)) == first_nonblank(all),
        decreases files.len() - i,
    {
        proof {
            assert(all.skip(i as int)[0] == opt_text(files@[i as int]));
            assert(all.skip(i as int).drop_first() =~= all.skip(i + 1));
        }
        if let Some(s) = &files[i] {
            if let Some(t) = trim_opt(Some(s.as_str())) {
                return t;
            }
        }
        i += 1;
    }
    "".to_owned()
}

/// One text, where there is one.
pub open spec fn listed(o: Option<Seq<char>>) -> Seq<Seq<char>> {
    match o {
        Some(s) => seq![s],
        None => Seq::empty(),
    }
}

/// The files in which a token may be stored.
pub open spec fn token_paths(token_path: Option<Seq<char>>, home: Option<Seq<char>>) -> Seq<
    Seq<char>,
> {
    listed(token_path) + match home {
        Some(h) => seq![below(h, ".vault-token"@), below(h, ".bao-token"@)],
        None => Seq::empty(),
    }
}

/// The files in which a token may be stored: `BAO_TOKEN_PATH`, and two in the
/// home directory.
pub fn bao_token_paths(token_path: Option<&str>, home: Option<&str>) -> (r: Vec<String>)
    ensures
        texts(r@) == token_paths(opt_view(token_path), opt_view(home)),
{
    let mut out: Vec<String> = Vec::new();
    if let Some(p) = token_path {
        out.push(p.to_owned());
    }
    if let Some(h) = home {
        out.push(join_path(h, ".vault-token"));
        out.push(join_path(h, ".bao-token"));
    }
    assert(texts(out@) =~= token_paths(opt_view(token_path), opt_view(home)));
    out
}

/// A file to be written.
pub struct TokenFile {
    pub path: String,
    pub contents: String,
}

/// The file that stores a token: its path and its contents.
pub open spec fn token_file(token: Seq<char>, home: Option<Seq<char>>) -> Result<
    (Seq<char>, Seq<char>),
    Seq<char>,
> {
    if trimmed(token).len() == 0 {
        Err("refusing to save empty token"@)
    } else {
        match home {
            Some(h) => Ok((below(h, ".bao-token"@), trimmed(token) + "\n"@)),
            None => Err("HOME is unset; cannot save token"@),
        }
    }
}

/// What a file to be written holds, or the error.
pub open spec fn file_result(r: Result<TokenFile, AuthError>) -> Result<
    (Seq<char>, Seq<char>),
    Seq<char>,
> {
    match r {
        Ok(f) => Ok((f.path@, f.contents@)),
        Err(e) => Err(e.text()),
    }
}

/// The file that stores a token for the next launch.
pub fn save_bao_token(token: &str, home: Option<&str>) -> (r: Result<TokenFile, AuthError>)
    ensures
        file_result(r) == token_file(token@, opt_view(home)),
{
    let t = trim(token);
    if is_empty(t) {
        return Err(AuthError::from("refusing to save empty token"));
    }
    match home {
        Some(h) => Ok(
            TokenFile { path: join_path(h, ".bao-token"), contents: concat(t, "\n") },
        ),
        None => Err(AuthError::from("HOME is unset; cannot save token")),
    }
}

/// A token that was saved is loaded again: its file is one of those that are
/// read, and what it holds is the token without the white space around it,
/// unless the environment or a file that is read earlier holds another.
pub proof fn law_saved_token_is_loaded(
    token: Seq<char>,
    home: Seq<char>,
    token_path: Option<Seq<char>>,
    files: Seq<Option<Seq<char>>>,
    k: int,
)
    requires
        trimmed(token).len() > 0,
        files.len() == token_paths(token_path, Some(home)).len(),
        0 <= k < files.len(),
        token_file(token, Some(home)) matches Ok((path, contents)) && token_paths(
            token_path,
            Some(home),
        )[k] == path && files[k] == Some(contents),
        forall|i: int| 0 <= i < k ==> nonblank(#[trigger] files[i]) is None,
    ensures
        token_file(token, Some(home)) matches Ok((path, _)) && token_paths(
            token_path,
            Some(home),
        ).contains(path),
        token_of_env(None, None, files) == trimmed(token),
{
    let t = trimmed(token);
    let contents = t + "\n"@;
    reveal_strlit("\n");
    lemma_trimmed_edges(token);
    assert(drop_leading(contents, CharClass::Whitespace) == contents) by {
        assert(contents[0] == t[0]);
    }
    assert(contents.last() == '\n');
    assert(contents.drop_last() =~= t);
    assert(drop_trailing(t, CharClass::Whitespace) == t);
    assert(trimmed(contents) == t);
    lemma_first_nonblank(files, k);
}

/// The first text that is not blank is taken.
proof fn lemma_first_nonblank(files: Seq<Option<Seq<char>>>, k: int)
    requires
        0 <= k < files.len(),
        nonblank(files[k]) is Some,
        forall|i: int| 0 <= i < k ==> nonblank(#[trigger] files[i]) is None,
    ensures
        first_nonblank(files) == nonblank(files[k])->0,
    decreases files.len(),
{
    if k > 0 {
        let rest = files.drop_first();
        assert(nonblank(files[0]) is None);
        assert forall|i: int| 0 <= i < k - 1 implies nonblank(#[trigger] rest[i]) is None by {
            assert(rest[i] == files[i + 1]);
        }
        assert(rest[k - 1] == files[k]);
        lemma_first_nonblank(rest, k - 1);
    }
}

/// Is the API key set, given `CURSOR_API_KEY`?
pub fn has_cursor_api_key(value: Option<&str>) -> (r: bool)
    ensures
        r == nonblank(opt_view(value)) is Some,
{
    trim_opt(value).is_some()
}

/// The value to export as `CURSOR_API_KEY`; a blank key is not exported.
pub fn apply_cursor_api_key(key: &str) -> (r: Option<String>)
    ensures
        opt_text(r) == nonblank(Some(key@)),
{
    trim_opt(Some(key))
}

/// Whether the user is signed in, in words, given `CURSOR_API_KEY`.
pub fn cursor_auth_status_label(value: Option<&str>) -> (r: String)
    ensures
        r@ == if nonblank(opt_view(value)) is Some {
            "Cursor: signed in"@
        } else {
            "Cursor: not signed in"@
        },
{
    if has_cursor_api_key(value) {
        "Cursor: signed in".to_owned()
    } else {
        "Cursor: not signed in".to_owned()
    }
}

/// What to do next to get the API key into the environment.
pub enum AuthStep {
    /// Store the token.
    Write(TokenFile),
    /// Fetch the API key with `fetch_cursor_api_key`.
    Fetch { address: String, token: String },
    /// Export the API key.
    Export { key: String },
    /// Nothing is left to do.
    Finished,
}

/// What a step holds.
pub enum AuthStepView {
    Write { path: Seq<char>, contents: Seq<char> },
    Fetch { address: Seq<char>, token: Seq<char> },
    Export { key: Seq<char> },
    Finished,
}

impl View for AuthStep {
    type V = AuthStepView;

    open spec fn view(&self) -> AuthStepView {
        match self {
            AuthStep::Write(f) => AuthStepView::Write { path: f.path@, contents: f.contents@ },
            AuthStep::Fetch { address, token } => AuthStepView::Fetch {
                address: address@,
                token: token@,
            },
            AuthStep::Export { key } => AuthStepView::Export { key: key@ },
            AuthStep::Finished => AuthStepView::Finished,
        }
    }
}

/// What a step or an error holds.
pub open spec fn step_result(r: Result<AuthStep, AuthError>) -> Result<AuthStepView, Seq<char>> {
    match r {
        Ok(s) => Ok(s@),
        Err(e) => Err(e.text()),
    }
}

/// What to do with the outcome of fetching the API key.
pub open spec fn after_fetch(fetched: Result<Seq<char>, Seq<char>>) -> Result<
    AuthStepView,
    Seq<char>,
> {
    match fetched {
        Ok(key) => match nonblank(Some(key)) {
            Some(k) => Ok(AuthStepView::Export { key: k }),
            None => Ok(AuthStepView::Finished),
        },
        Err(e) => Err(e),
    }
}

/// What to do with the outcome of fetching the API key.
fn export_step(fetched: &Result<String, AuthError>) -> (r: Result<AuthStep, AuthError>)
    ensures
        step_result(r) == after_fetch(auth_result(*fetched)),
{
    match fetched {
        Ok(key) => match apply_cursor_api_key(key.as_str()) {
            Some(key) => Ok(AuthStep::Export { key }),
            None => Ok(AuthStep::Finished),
        },
        Err(e) => Err(AuthError::from(e.message())),
    }
}

/// The outcome of fetching the API key, where there is one.
pub open spec fn opt_fetched(f: Option<&Result<String, AuthError>>) -> Option<
    Result<Seq<char>, Seq<char>>,
> {
    match f {
        Some(r) => Some(auth_result(*r)),
        None => None,
    }
}

/// The next step in restoring the API key from a stored token.
pub open spec fn restore_next(
    key: Option<Seq<char>>,
    address: Seq<char>,
    token: Seq<char>,
    fetched: Option<Result<Seq<char>, Seq<char>>>,
) -> Result<AuthStepView, Seq<char>> {
    if nonblank(key) is Some {
        Ok(AuthStepView::Finished)
    } else if token.len() == 0 {
        Err("no OpenBao token (sign in with OIDC or set BAO_TOKEN)"@)
    } else {
        match fetched {
            None => Ok(AuthStepView::Fetch { address, token }),
            Some(f) => after_fetch(f),
        }
    }
}

/// The next step in restoring the API key from a stored token: nothing where
/// `CURSOR_API_KEY` is set; an error without a token; else the key is fetched
/// and exported. `fetched` is the outcome of fetching it, once that is known.
pub fn restore_cursor_auth(
    key: Option<&str>,
    address: &str,
    token: &str,
    fetched: Option<&Result<String, AuthError>>,
) -> (r: Result<AuthStep, AuthError>)
    ensures
        step_result(r) == restore_next(opt_view(key), address@, token@, opt_fetched(fetched)),
{
    if has_cursor_api_key(key) {
        return Ok(AuthStep::Finished);
    }
    if is_empty(token) {
        return Err(AuthError::from("no OpenBao token (sign in with OIDC or set BAO_TOKEN)"));
    }
    match fetched {
        None => Ok(AuthStep::Fetch { address: address.to_owned(), token: token.to_owned() }),
        Some(f) => export_step(f),
    }
}

/// The outcome of storing the token, where there is one.
pub open spec fn opt_written(w: Option<&Result<(), String>>) -> Option<Result<(), Seq<char>>> {
    match w {
        Some(Ok(_)) => Some(Ok(())),
        Some(Err(e)) => Some(Err(e@)),
        None => None,
    }
}

/// The next step after a sign-in that gave a token.
pub open spec fn complete_next(
    address: Seq<char>,
    token: Seq<char>,
    home: Option<Seq<char>>,
    written: Option<Result<(), Seq<char>>>,
    fetched: Option<Result<Seq<char>, Seq<char>>>,
) -> Result<AuthStepView, Seq<char>> {
    match token_file(token, home) {
        Err(e) => Err(e),
        Ok((path, contents)) => match written {
            None => Ok(AuthStepView::Write { path, contents }),
            Some(Err(e)) => Err("write "@ + path + ": "@ + e),
            Some(Ok(_)) => match fetched {
                None => Ok(AuthStepView::Fetch { address, token }),
                Some(f) => after_fetch(f),
            },
        },
    }
}

/// The next step after a sign-in that gave a token: it is stored, then the API
/// key is fetched with it and exported. `written` and `fetched` are the outcomes
/// of the first two steps, once they are known.
pub fn complete_oidc_login(
    address: &str,
    bao_token: &str,
    home: Option<&str>,
    written: Option<&Result<(), String>>,
    fetched: Option<&Result<String, AuthError>>,
) -> (r: Result<AuthStep, AuthError>)
    ensures
        step_result(r) == complete_next(
            address@,
            bao_token@,
            opt_view(home),
            opt_written(written),
            opt_fetched(fetched),
        ),
{
    match save_bao_token(bao_token, home) {
        Err(e) => Err(e),
        Ok(file) => match written {
            None => Ok(AuthStep::Write(file)),
            Some(Err(e)) => {
                let mut out = concat3("write ", file.path.as_str(), ": ");
                out.append(e.as_str());
                Err(AuthError::Message(out))
            },
            Some(Ok(_)) => match fetched {
                None => Ok(
                    AuthStep::Fetch { address: address.to_owned(), token: bao_token.to_owned() },
                ),
                Some(f) => export_step(f),
            },
        },
    }
}

/// A sign-in exports nothing before its token is stored and the key fetched,
/// and what it exports is the key that was fetched, without white space around it.
pub proof fn law_export_is_fetched_key(
    address: Seq<char>,
    token: Seq<char>,
    home: Option<Seq<char>>,
    written: Option<Result<(), Seq<char>>>,
    fetched: Option<Result<Seq<char>, Seq<char>>>,
    key: Seq<char>,
)
    requires
        complete_next(address, token, home, written, fetched) == Ok::<AuthStepView, Seq<char>>(
            AuthStepView::Export { key },
        ),
    ensures
        written matches Some(Ok(_)),
        fetched matches Some(Ok(k)) && trimmed(k) == key && key.len() > 0,
{
}

/// The keys are never asked for while the server's state is unknown, or when
/// it is sealed or not set up.
pub proof fn law_keys_need_an_open_server(
    address: Seq<char>,
    token: Seq<char>,
    health: Option<&Result<HealthReply, String>>,
    keys: Option<&Result<HttpReply, String>>,
)
    requires
        fetch_next(address, token, health, keys) is AskKeys,
    ensures
        health matches Some(Ok(HealthReply { parsed: Ok(h), .. })) && !h.sealed && h.initialized,
{
}

/// The server is first asked for its state, then for the stored keys, each at its own
/// path below `/v1/` and with the token, without the white space around it. A sealed or
/// an empty server is to answer too.
pub proof fn law_server_is_asked_with_token(
    address: Seq<char>,
    token: Seq<char>,
    health: Result<HealthReply, String>,
)
    requires
        address.len() > 0 ==> address.last() != '/',
        health_objection(health) is None,
    ensures
        fetch_next(address, token, None, None) matches FetchView::AskHealth(r) && r.method
            == Method::Get && r.url == address + "/v1/"@ + "sys/health"@ && r.headers.contains(
            ("X-Vault-Token"@, trimmed(token)),
        ) && r.query.contains(("standbyok"@, "true"@)) && r.query.contains(
            ("sealedcode"@, "200"@),
        ) && r.query.contains(("uninitcode"@, "200"@)) && r.body is None,
        fetch_next(address, token, Some(&health), None) matches FetchView::AskKeys(r) && r.method
            == Method::Get && r.url == address + "/v1/"@ + "secret/data/ai-api-keys"@
            && r.headers.contains(("X-Vault-Token"@, trimmed(token))) && r.query.len() == 0
            && r.body is None,
{
    let slash = CharClass::Only('/');
    reveal_strlit("sys/health");
    reveal_strlit("secret/data/ai-api-keys");
    assert(drop_trailing(address, slash) == address);
    assert(drop_leading("sys/health"@, slash) == "sys/health"@);
    assert(drop_leading("secret/data/ai-api-keys"@, slash) == "secret/data/ai-api-keys"@);
    let a = health_request_of(address, token);
    assert(a.headers[0] == ("X-Vault-Token"@, trimmed(token)));
    assert(a.query[0] == ("standbyok"@, "true"@));
    assert(a.query[1] == ("sealedcode"@, "200"@));
    assert(a.query[2] == ("uninitcode"@, "200"@));
    let b = keys_request_of(address, token);
    assert(b.headers[0] == ("X-Vault-Token"@, trimmed(token)));
}

/// Nothing is objected to a server that is open and set up; a sealed one, one that is not
/// set up and one that cannot be reached or understood are objected to, each in its words.
pub proof fn law_closed_server_is_objected_to(outcome: Result<HealthReply, String>)
    ensures
        match outcome {
            Ok(reply) => match reply.parsed {
                Ok(h) => {
                    &&& health_objection(outcome) is None <==> h.initialized && !h.sealed
                    &&& h.sealed ==> health_objection(outcome) == Some("OpenBao is sealed"@)
                    &&& !h.sealed && !h.initialized ==> health_objection(outcome) == Some(
                        "OpenBao is not initialized"@,
                    )
                },
                Err(e) => health_objection(outcome) == Some(
                    "health parse error: "@ + e@ + ": "@ + reply.body@,
                ),
            },
            Err(e) => health_objection(outcome) == Some("health check failed: "@ + e@),
        },
{
}

/// An objection to the server's state ends the fetch with it.
pub proof fn law_objection_ends_fetch(
    address: Seq<char>,
    token: Seq<char>,
    health: Result<HealthReply, String>,
    keys: Option<&Result<HttpReply, String>>,
)
    requires
        health_objection(health) is Some,
    ensures
        fetch_next(address, token, Some(&health), keys) == FetchView::Done(
            Err(health_objection(health)->0),
        ),
{
}

/// The fields are looked at in their order: `CURSOR_API_KEY`, `cursor_api_key`,
/// `CURSOR_TOKEN`. A blank one does not count.
pub proof fn law_fields_are_tried_in_order(keys: Map<Seq<char>, Seq<char>>)
    ensures
        ({
            let first = nonblank(lookup(keys, "CURSOR_API_KEY"@));
            let second = nonblank(lookup(keys, "cursor_api_key"@));
            let third = nonblank(lookup(keys, "CURSOR_TOKEN"@));
            &&& first is Some ==> picked_key(keys) == first
            &&& first is None && second is Some ==> picked_key(keys) == second
            &&& first is None && second is None ==> picked_key(keys) == third
        }),
{
}

/// A list of secrets gives the value of a name that stands in it once.
proof fn lemma_secret_at(members: Seq<(Seq<char>, JsonView)>, i: int)
    requires
        0 <= i < members.len(),
        forall|j: int| i < j < members.len() ==> (#[trigger] members[j]).0 != members[i].0,
    ensures
        lookup(map_of(secrets(members)), members[i].0) == Some(secret_text(members[i].1)),
    decreases members.len(),
{
    let t = members.drop_last();
    assert(secrets(members).drop_last() =~= secrets(t));
    if i < t.len() {
        assert(members[members.len() - 1].0 != members[i].0);
        assert forall|j: int| i < j < t.len() implies (#[trigger] t[j]).0 != t[i].0 by {
            assert(members[j].0 != members[i].0);
        }
        lemma_secret_at(t, i);
    }
}

/// The key that is fetched is the text stored as `CURSOR_API_KEY` among the `data` of the
/// reply's `data`, without the white space around it.
pub proof fn law_stored_key_is_fetched(
    address: Seq<char>,
    token: Seq<char>,
    health: Result<HealthReply, String>,
    reply: HttpReply,
    v: JsonView,
    outer: JsonView,
    members: Seq<(Seq<char>, JsonView)>,
    i: int,
    key: Seq<char>,
)
    requires
        health_objection(health) is None,
        200 <= reply.status < 300,
        trimmed(reply.body@).len() > 0,
        json_parsed(reply.body@) == Ok::<JsonView, Seq<char>>(v),
        crate::json::member(v, "data"@) == Some(outer),
        crate::json::member(outer, "data"@) == Some(JsonView::Object(members)),
        0 <= i < members.len(),
        members[i] == ("CURSOR_API_KEY"@, JsonView::Str(key)),
        forall|j: int| i < j < members.len() ==> (#[trigger] members[j]).0 != "CURSOR_API_KEY"@,
        trimmed(key).len() > 0,
    ensures
        fetch_next(
            address,
            token,
            Some(&health),
            Some(&Ok::<HttpReply, String>(reply)),
        ) == FetchView::Done(Ok(trimmed(key))),
{
    lemma_secret_at(members, i);
    assert(v is Object && outer is Object);
    assert(keys_of(v) == map_of(secrets(members)));
}

/// Where none of the fields holds a key, or the server refuses, none is fetched.
pub proof fn law_no_key_is_made_up(
    address: Seq<char>,
    token: Seq<char>,
    health: Result<HealthReply, String>,
    reply: HttpReply,
)
    requires
        health_objection(health) is None,
    ensures
        !(200 <= reply.status < 300) ==> fetch_next(
            address,
            token,
            Some(&health),
            Some(&Ok::<HttpReply, String>(reply)),
        ) matches FetchView::Done(Err(_)),
        200 <= reply.status < 300 && trimmed(reply.body@).len() == 0 ==> fetch_next(
            address,
            token,
            Some(&health),
            Some(&Ok::<HttpReply, String>(reply)),
        ) matches FetchView::Done(Err(_)),
        200 <= reply.status < 300 && trimmed(reply.body@).len() > 0 && json_parsed(reply.body@)
            is Ok && picked_key(keys_of(json_parsed(reply.body@)->Ok_0)) is None ==> fetch_next(
            address,
            token,
            Some(&health),
            Some(&Ok::<HttpReply, String>(reply)),
        ) matches FetchView::Done(Err(_)),
{
    assert(keys_of(JsonView::Null) =~= Map::empty());
}

/// A refusal is told by the errors that it lists, else by its only error, else by its
/// text, else by the standard words for its status, else by the status.
pub proof fn law_refusal_tells_best_known(r: ReplyView, reason: Option<Seq<char>>, v: JsonView)
    ensures
        json_parsed(r.body) == Ok::<JsonView, Seq<char>>(v) && errors_of(v) is Some
            ==> refusal_given(r, reason) == errors_of(v)->0,
        json_parsed(r.body) == Ok::<JsonView, Seq<char>>(v) && errors_of(v) is None && member_str(
            v,
            "error"@,
        ) is Some ==> refusal_given(r, reason) == member_str(v, "error"@)->0,
        json_parsed(r.body) is Err && 0 < r.body.len() <= 300 ==> refusal_given(r, reason)
            == r.body,
        json_parsed(r.body) is Err && r.body.len() == 0 && reason is Some ==> refusal_given(
            r,
            reason,
        ) == reason->0,
        json_parsed(r.body) is Err && r.body.len() == 0 && reason is None ==> refusal_given(
            r,
            reason,
        ) == "HTTP "@ + decimal(r.status as nat),
{
}

/// A secret is a text as it stands; null is none.
pub proof fn law_text_secret_is_itself(s: Seq<char>)
    ensures
        secret_text(JsonView::Str(s)) == s,
        secret_text(JsonView::Null).len() == 0,
{
    reveal_strlit("");
}

/// The server's address is `BAO_ADDR`, else `VAULT_ADDR`, else the default one; it ends
/// in no slash.
pub proof fn law_server_address(bao: Option<Seq<char>>, vault: Option<Seq<char>>)
    ensures
        ({
            let a = bao_addr_of(bao, vault);
            &&& a.len() > 0 ==> a.last() != '/'
            &&& bao is Some && trimmed(bao->0).len() > 0 && trimmed(bao->0).last() != '/' ==> a
                == trimmed(bao->0)
            &&& bao is None && vault is Some && trimmed(vault->0).len() > 0 && trimmed(
                vault->0,
            ).last() != '/' ==> a == trimmed(vault->0)
            &&& bao is None && vault is None ==> a == "https://openbao.boxd.sh"@
        }),
{
    let slash = CharClass::Only('/');
    let raw = match or_else(bao, vault) {
        Some(a) => a,
        None => "https://openbao.boxd.sh"@,
    };
    crate::text::lemma_drop_trailing(trimmed(raw), slash);
    reveal_strlit("https://openbao.boxd.sh");
    let d = "https://openbao.boxd.sh"@;
    assert(d[0] == 'h' && d.last() == 'h');
    crate::text::lemma_drop_leading_none(d, CharClass::Whitespace);
    crate::text::lemma_drop_trailing_none(d, CharClass::Whitespace);
    crate::text::lemma_drop_trailing_none(d, slash);
}

/// The stored token is that of the environment, `BAO_TOKEN` before `VAULT_TOKEN`, else that
/// of the first file that holds one.
pub proof fn law_token_comes_from_environment_first(
    bao: Option<Seq<char>>,
    vault: Option<Seq<char>>,
    files: Seq<Option<Seq<char>>>,
)
    ensures
        bao is Some && trimmed(bao->0).len() > 0 ==> token_of_env(bao, vault, files) == trimmed(
            bao->0,
        ),
        bao is None && vault is Some && trimmed(vault->0).len() > 0 ==> token_of_env(
            bao,
            vault,
            files,
        ) == trimmed(vault->0),
        bao is None && vault is None ==> token_of_env(bao, vault, files) == token_of_env(
            None,
            None,
            files,
        ),
        (forall|i: int| 0 <= i < files.len() ==> nonblank(#[trigger] files[i]) is None)
            ==> token_of_env(None, None, files).len() == 0,
{
    if forall|i: int| 0 <= i < files.len() ==> nonblank(#[trigger] files[i]) is None {
        lemma_all_blank(files);
    }
}

/// Where all is blank, nothing is taken.
proof fn lemma_all_blank(files: Seq<Option<Seq<char>>>)
    requires
        forall|i: int| 0 <= i < files.len() ==> nonblank(#[trigger] files[i]) is None,
    ensures
        first_nonblank(files).len() == 0,
    decreases files.len(),
{
    reveal_strlit("");
    if files.len() > 0 {
        assert(nonblank(files[0]) is None);
        assert forall|i: int| 0 <= i < files.drop_first().len() implies nonblank(
            #[trigger] files.drop_first()[i],
        ) is None by {
            assert(nonblank(files[i + 1]) is None);
        }
        lemma_all_blank(files.drop_first());
    }
}

/// A token may be stored in the file that the environment names, and in two files of the
/// home directory, which are read in this order.
pub proof fn law_token_files(path: Seq<char>, home: Seq<char>)
    ensures
        token_paths(Some(path), Some(home)) == seq![
            path,
            below(home, ".vault-token"@),
            below(home, ".bao-token"@),
        ],
        token_paths(None, Some(home)) == seq![
            below(home, ".vault-token"@),
            below(home, ".bao-token"@),
        ],
        token_paths(Some(path), None) == seq![path],
        token_paths(None, None).len() == 0,
{
    assert(token_paths(Some(path), Some(home)) =~= seq![
        path,
        below(home, ".vault-token"@),
        below(home, ".bao-token"@),
    ]);
    assert(token_paths(None, Some(home)) =~= seq![
        below(home, ".vault-token"@),
        below(home, ".bao-token"@),
    ]);
    assert(token_paths(Some(path), None) =~= seq![path]);
}

/// After a sign-in the token is stored below the home directory, then the key is fetched
/// with this token from this server, then it is exported. What fails ends it.
pub proof fn law_sign_in_stores_fetches_exports(
    address: Seq<char>,
    token: Seq<char>,
    home: Seq<char>,
    fetched: Option<Result<Seq<char>, Seq<char>>>,
    key: Seq<char>,
    e: Seq<char>,
)
    requires
        trimmed(token).len() > 0,
        trimmed(key).len() > 0,
    ensures
        complete_next(address, token, Some(home), None, fetched) == Ok::<AuthStepView, Seq<char>>(
            AuthStepView::Write {
                path: below(home, ".bao-token"@),
                contents: trimmed(token) + "\n"@,
            },
        ),
        complete_next(address, token, Some(home), Some(Err(e)), fetched) is Err,
        complete_next(address, token, Some(home), Some(Ok(())), None) == Ok::<
            AuthStepView,
            Seq<char>,
        >(AuthStepView::Fetch { address, token }),
        complete_next(address, token, Some(home), Some(Ok(())), Some(Ok(key))) == Ok::<
            AuthStepView,
            Seq<char>,
        >(AuthStepView::Export { key: trimmed(key) }),
        complete_next(address, token, Some(home), Some(Ok(())), Some(Err(e))) == Err::<
            AuthStepView,
            Seq<char>,
        >(e),
        complete_next(address, token, None, None, fetched) is Err,
{
}

/// At a launch nothing is done where a key is set; else a stored token fetches the key
/// and exports it; without a token the user is told to sign in.
pub proof fn law_launch_restores_key(
    key: Option<Seq<char>>,
    address: Seq<char>,
    token: Seq<char>,
    fetched: Seq<char>,
    e: Seq<char>,
)
    requires
        trimmed(fetched).len() > 0,
    ensures
        key is Some && trimmed(key->0).len() > 0 ==> restore_next(key, address, token, None)
            == Ok::<AuthStepView, Seq<char>>(AuthStepView::Finished),
        key is None || trimmed(key->0).len() == 0 ==> {
            &&& token.len() == 0 ==> restore_next(key, address, token, None) == Err::<
                AuthStepView,
                Seq<char>,
            >("no OpenBao token (sign in with OIDC or set BAO_TOKEN)"@)
            &&& token.len() > 0 ==> restore_next(key, address, token, None) == Ok::<
                AuthStepView,
                Seq<char>,
            >(AuthStepView::Fetch { address, token })
            &&& token.len() > 0 ==> restore_next(key, address, token, Some(Ok(fetched))) == Ok::<
                AuthStepView,
                Seq<char>,
            >(AuthStepView::Export { key: trimmed(fetched) })
            &&& token.len() > 0 ==> restore_next(key, address, token, Some(Err(e))) == Err::<
                AuthStepView,
                Seq<char>,
            >(e)
        },
{
}

/// A reply holds what its text writes as JSON, and nothing where it is blank; a request
/// that failed, a refusal and a text that is no JSON are errors.
pub proof fn law_reply_is_json(r: ReplyView, e: Seq<char>)
    ensures
        reply_value(Err(e)) == Err::<JsonView, Seq<char>>("request failed: "@ + e),
        !(200 <= r.status < 300) ==> reply_value(Ok(r)) == Err::<JsonView, Seq<char>>(
            refusal_given(r, canonical_reason_of(r.status)),
        ),
        200 <= r.status < 300 && trimmed(r.body).len() == 0 ==> reply_value(Ok(r)) == Ok::<
            JsonView,
            Seq<char>,
        >(JsonView::Null),
        200 <= r.status < 300 && trimmed(r.body).len() > 0 && json_parsed(r.body) is Ok
            ==> reply_value(Ok(r)) == json_parsed(r.body),
        200 <= r.status < 300 && trimmed(r.body).len() > 0 && json_parsed(r.body) is Err
            ==> reply_value(Ok(r)) == Err::<JsonView, Seq<char>>(
            "parse error: "@ + json_parsed(r.body)->Err_0,
        ),
{
}

/// The user is signed in where `CURSOR_API_KEY` holds anything but blanks; a key is exported
/// without the white space around it.
pub proof fn law_key_means_signed_in(
    value: Option<&str>,
    key: &str,
    set: bool,
    label: String,
    exported: Option<String>,
)
    requires
        call_ensures(has_cursor_api_key, (value,), set),
        call_ensures(cursor_auth_status_label, (value,), label),
        call_ensures(apply_cursor_api_key, (key,), exported),
    ensures
        set <==> value is Some && trimmed(value->0@).len() > 0,
        set ==> label@ == "Cursor: signed in"@,
        !set ==> label@ == "Cursor: not signed in"@,
        exported is Some <==> trimmed(key@).len() > 0,
        exported is Some ==> exported->0@ == trimmed(key@),
{
}

} // verus!
