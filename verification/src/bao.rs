//! The wire format of the secret server: error lists, sign-in requests and
//! what its replies tell.
use crate::digits::{decimal, to_decimal};
use crate::http::{
    format_send_error, is_success, send_error_text, succeeded, HttpReply, HttpRequest, Method,
    ReplyView, RequestView, SendError, SendErrorView,
};
use crate::json::{
    child_in, child_of, json_parsed, json_view, member, member_array, member_str, opt_child_of,
    opt_str_of, parse_json, rendered, str_of, text_in, views, Json, JsonView,
};
use crate::params::{lookup, map_of, pairs_view, Params};
use crate::split::{first_chars, head, join, joined, lemma_texts_push, texts};
use crate::text::{concat, is_empty, occurs, opt_text};
use crate::urlenc::{encode_form, form_encoded, law_form_reads_back, params_of};
use vstd::prelude::*;
use vstd::string::*;

verus! {

/// The texts among the items of a list.
pub open spec fn texts_among(items: Seq<JsonView>) -> Seq<Seq<char>>
    decreases items.len(),
{
    if items.len() == 0 {
        Seq::empty()
    } else {
        let before = texts_among(items.drop_last());
        match str_of(items.last()) {
            Some(s) => before.push(s),
            None => before,
        }
    }
}

/// The errors that a reply lists, in one line.
pub open spec fn errors_of(v: JsonView) -> Option<Seq<char>> {
    match member_array(v, "errors"@) {
        Some(items) => if texts_among(items).len() > 0 {
            Some(joined(texts_among(items), "; "@))
        } else {
            None
        },
        None => None,
    }
}

/// The errors that a reply's text lists.
pub open spec fn errors_of_text(body: Seq<char>) -> Option<Seq<char>> {
    match json_parsed(body) {
        Ok(v) => errors_of(v),
        Err(_) => None,
    }
}

/// The errors that a reply lists, in one line.
pub fn errors_in(v: &Json) -> (r: Option<String>)
    ensures
        opt_text(r) == errors_of(v@),
{
    broadcast use lemma_texts_push;

    match v.get_array("errors") {
        Some(items) => {
            let mut msgs: Vec<String> = Vec::new();
            let mut i: usize = 0;
            let ghost all = views(items@);
            assert(texts(msgs@) =~= texts_among(all.take(0)));
            while i < items.len()
                invariant
                    i <= items@.len(),
                    all == views(items@),
                    texts(msgs@) == texts_among(all.take(i as int)),
                decreases items.len() - i,
            {
                assert(all.take(i + 1).drop_last() =~= all.take(i as int));
                assert(all.take(i + 1).last() == items@[i as int]@);
                if let Some(s) = items[i].as_str() {
                    msgs.push(s.to_owned());
                }
                i += 1;
            }
            assert(all.take(i as int) =~= all);
            assert(texts(msgs@).len() == msgs@.len());
            if msgs.len() == 0 {
                None
            } else {
                Some(join(&msgs, "; "))
            }
        },
        None => None,
    }
}

/// The errors that a reply's text lists.
pub fn extract_errors(body: &str) -> (r: Option<String>)
    ensures
        opt_text(r) == errors_of_text(body@),
{
    match parse_json(body) {
        Ok(v) => errors_in(&v),
        Err(_) => None,
    }
}

/// What a failed reply says: the errors that it lists, or the first 300
/// characters of it.
pub open spec fn complaint(body: Seq<char>) -> Seq<char> {
    match errors_of_text(body) {
        Some(e) => e,
        None => head(body, 300),
    }
}

/// What a failed reply says.
pub fn complaint_of(body: &str) -> (r: String)
    ensures
        r@ == complaint(body@),
{
    match extract_errors(body) {
        Some(e) => e,
        None => first_chars(body, 300),
    }
}

/// That a request was refused, with its status and what the reply says.
pub open spec fn refusal(context: Seq<char>, r: ReplyView) -> Seq<char> {
    context + " (HTTP "@ + decimal(r.status as nat) + "): "@ + complaint(r.body)
}

/// That a request was refused.
fn format_refusal(context: &str, r: &HttpReply) -> (t: String)
    ensures
        t@ == refusal(context@, r@),
{
    let mut out = concat(context, " (HTTP ");
    out.append(to_decimal(r.status as u64).as_str());
    out.append("): ");
    out.append(complaint_of(r.body.as_str()).as_str());
    out
}

/// The header that marks a request of a client.
pub open spec fn client_header() -> (Seq<char>, Seq<char>) {
    ("X-Vault-Request"@, "true"@)
}

/// The request for the address at which the user signs in.
pub open spec fn auth_url_request_of(
    address: Seq<char>,
    mount: Seq<char>,
    role: Seq<char>,
    redirect_uri: Seq<char>,
    nonce: Seq<char>,
) -> RequestView {
    let base = seq![
        ("client_nonce"@, JsonView::Str(nonce)),
        ("redirect_uri"@, JsonView::Str(redirect_uri)),
    ];
    let members = if role.len() > 0 {
        base.push(("role"@, JsonView::Str(role)))
    } else {
        base
    };
    RequestView {
        method: Method::Post,
        url: address + "/v1/auth/"@ + mount + "/oidc/auth_url"@,
        headers: seq![client_header(), ("Content-Type"@, "application/json"@)],
        query: Seq::empty(),
        body: Some(rendered(JsonView::Object(members))),
        basic_user: None,
    }
}

/// The request for the address at which the user signs in.
pub fn auth_url_request(
    address: &str,
    mount: &str,
    role: &str,
    redirect_uri: &str,
    nonce: &str,
) -> (r: HttpRequest)
    ensures
        r@ == auth_url_request_of(address@, mount@, role@, redirect_uri@, nonce@),
{
    let mut url = concat(address, "/v1/auth/");
    url.append(mount);
    url.append("/oidc/auth_url");
    let mut members: Vec<(String, Json)> = Vec::new();
    members.push(("client_nonce".to_owned(), Json::Str(nonce.to_owned())));
    members.push(("redirect_uri".to_owned(), Json::Str(redirect_uri.to_owned())));
    if !is_empty(role) {
        members.push(("role".to_owned(), Json::Str(role.to_owned())));
    }
    let body = Json::Object(members);
    let mut headers: Vec<(String, String)> = Vec::new();
    headers.push(("X-Vault-Request".to_owned(), "true".to_owned()));
    headers.push(("Content-Type".to_owned(), "application/json".to_owned()));
    let r = HttpRequest {
        method: Method::Post,
        url,
        headers,
        query: Vec::new(),
        body: Some(body.render()),
        basic_user: None,
    };
    proof {
        let want = auth_url_request_of(address@, mount@, role@, redirect_uri@, nonce@);
        let base = seq![
            ("client_nonce"@, JsonView::Str(nonce@)),
            ("redirect_uri"@, JsonView::Str(redirect_uri@)),
        ];
        let full = if role@.len() > 0 {
            base.push(("role"@, JsonView::Str(role@)))
        } else {
            base
        };
        reveal_with_fuel(json_view, 2);
        assert(body@->Object_0 =~= full);
        assert(pairs_view(r.headers@) =~= want.headers);
        assert(pairs_view(r.query@) =~= want.query);
    }
    r
}

/// What `url::Url::parse` says against a text as an address; nothing where it takes it.
pub uninterp spec fn url_error(text: Seq<char>) -> Option<Seq<char>>;

/// `url::Url::parse`: is the text an absolute address? The message of its
/// error, if there is one, depends on the text alone.
#[verifier::external_body]
fn check_url(text: &str) -> (r: Option<String>)
    ensures
        opt_text(r) == url_error(text@),
{
    url::Url::parse(text).err().map(|e| e.to_string())
}

/// The sign-in address in a reply, given what is to be said against it.
pub open spec fn auth_url_given(
    found: Seq<char>,
    objection: Option<Seq<char>>,
    role: Seq<char>,
    redirect_uri: Seq<char>,
) -> Result<Seq<char>, Seq<char>> {
    if found.len() == 0 {
        Err(
            "Unable to authorize role \""@ + role + "\" with redirect_uri \""@ + redirect_uri
                + "\". Check OpenBao logs."@,
        )
    } else {
        match objection {
            Some(e) => Err("invalid auth_url from server: "@ + e),
            None => Ok(found),
        }
    }
}

/// The sign-in address that a reply names; empty where it names none.
pub open spec fn auth_url_named(v: JsonView) -> Seq<char> {
    match opt_str_of(opt_child_of(child_of(v, "data"@), "auth_url"@)) {
        Some(s) => s,
        None => ""@,
    }
}

/// The sign-in address that a reply holds.
pub open spec fn auth_url_of(
    outcome: Result<ReplyView, SendErrorView>,
    role: Seq<char>,
    redirect_uri: Seq<char>,
) -> Result<Seq<char>, Seq<char>> {
    match outcome {
        Err(e) => Err(send_error_text("OIDC auth_url request failed"@, e)),
        Ok(r) => if !succeeded(r.status) {
            Err(refusal("OIDC auth_url failed"@, r))
        } else {
            match json_parsed(r.body) {
                Err(m) => Err("auth_url parse error: "@ + m),
                Ok(v) => {
                    let found = auth_url_named(v);
                    auth_url_given(found, url_error(found), role, redirect_uri)
                },
            }
        },
    }
}

/// A text or an error text, by its characters.
pub open spec fn result_text(r: Result<String, String>) -> Result<Seq<char>, Seq<char>> {
    match r {
        Ok(s) => Ok(s@),
        Err(e) => Err(e@),
    }
}

/// The sign-in address that a reply names; empty where it names none.
pub fn named_auth_url(v: &Json) -> (r: String)
    ensures
        r@ == auth_url_named(v@),
{
    match text_in(child_in(v.child("data"), "auth_url")) {
        Some(s) => s,
        None => "".to_owned(),
    }
}

/// The sign-in address in a reply, given what is to be said against it.
pub fn accept_auth_url(found: String, objection: Option<String>, role: &str, redirect_uri: &str) -> (r:
    Result<String, String>)
    ensures
        result_text(r) == auth_url_given(found@, opt_text(objection), role@, redirect_uri@),
{
    if is_empty(found.as_str()) {
        let mut out = concat("Unable to authorize role \"", role);
        out.append("\" with redirect_uri \"");
        out.append(redirect_uri);
        out.append("\". Check OpenBao logs.");
        return Err(out);
    }
    match objection {
        Some(e) => Err(concat("invalid auth_url from server: ", e.as_str())),
        None => Ok(found),
    }
}

/// The sign-in address that the reply to `auth_url_request` holds.
pub fn read_auth_url(outcome: &Result<HttpReply, SendError>, role: &str, redirect_uri: &str) -> (r:
    Result<String, String>)
    ensures
        result_text(r) == auth_url_of(crate::http::outcome_view(*outcome), role@, redirect_uri@),
{
    match outcome {
        Err(e) => Err(format_send_error("OIDC auth_url request failed", e)),
        Ok(reply) => {
            if !is_success(reply.status) {
                return Err(format_refusal("OIDC auth_url failed", reply));
            }
            match parse_json(reply.body.as_str()) {
                Err(m) => Err(concat("auth_url parse error: ", m.as_str())),
                Ok(v) => {
                    let found = named_auth_url(&v);
                    let objection = check_url(found.as_str());
                    accept_auth_url(found, objection, role, redirect_uri)
                },
            }
        },
    }
}

/// The address of the server's side of the callback.
pub open spec fn callback_url(address: Seq<char>, mount: Seq<char>) -> Seq<char> {
    address + "/v1/auth/"@ + mount + "/oidc/callback"@
}

/// The address of the server's side of the callback.
fn make_callback_url(address: &str, mount: &str) -> (r: String)
    ensures
        r@ == callback_url(address@, mount@),
{
    let mut url = concat(address, "/v1/auth/");
    url.append(mount);
    url.append("/oidc/callback");
    url
}

/// A pair of a key and its value, where the key has one.
pub open spec fn pair_if(m: Map<Seq<char>, Seq<char>>, key: Seq<char>) -> Seq<(Seq<char>, Seq<char>)> {
    match lookup(m, key) {
        Some(v) => seq![(key, v)],
        None => Seq::empty(),
    }
}

/// The request that hands the parameters of a posted callback to the server.
pub open spec fn form_post_of(
    address: Seq<char>,
    mount: Seq<char>,
    params: Map<Seq<char>, Seq<char>>,
    nonce: Seq<char>,
) -> RequestView {
    RequestView {
        method: Method::Post,
        url: callback_url(address, mount),
        headers: seq![
            client_header(),
            ("Content-Type"@, "application/x-www-form-urlencoded"@),
        ],
        query: Seq::empty(),
        body: Some(
            form_encoded(
                seq![("client_nonce"@, nonce)] + pair_if(params, "state"@) + pair_if(
                    params,
                    "code"@,
                ) + pair_if(params, "id_token"@),
            ),
        ),
        basic_user: None,
    }
}

/// Adds a key and its value to a list, where the key has one.
fn add_pair(pairs: &mut Vec<(String, String)>, params: &Params, key: &str)
    ensures
        pairs_view(final(pairs)@) == pairs_view(old(pairs)@) + pair_if(params@, key@),
{
    if let Some(v) = params.value(key) {
        pairs.push((key.to_owned(), v));
    }
    assert(pairs_view(pairs@) =~= pairs_view(old(pairs)@) + pair_if(params@, key@));
}

/// The request that hands the parameters of a posted callback to the server.
pub fn form_post_request(address: &str, mount: &str, params: &Params, nonce: &str) -> (r:
    HttpRequest)
    ensures
        r@ == form_post_of(address@, mount@, params@, nonce@),
{
    let mut pairs: Vec<(String, String)> = Vec::new();
    pairs.push(("client_nonce".to_owned(), nonce.to_owned()));
    assert(pairs_view(pairs@) =~= seq![("client_nonce"@, nonce@)]);
    add_pair(&mut pairs, params, "state");
    add_pair(&mut pairs, params, "code");
    add_pair(&mut pairs, params, "id_token");
    let mut headers: Vec<(String, String)> = Vec::new();
    headers.push(("X-Vault-Request".to_owned(), "true".to_owned()));
    headers.push(("Content-Type".to_owned(), "application/x-www-form-urlencoded".to_owned()));
    let r = HttpRequest {
        method: Method::Post,
        url: make_callback_url(address, mount),
        headers,
        query: Vec::new(),
        body: Some(encode_form(&pairs)),
        basic_user: None,
    };
    proof {
        let want = form_post_of(address@, mount@, params@, nonce@);
        assert(pairs_view(r.headers@) =~= want.headers);
        assert(pairs_view(r.query@) =~= want.query);
    }
    r
}

/// The request that exchanges state and code for a token.
pub open spec fn exchange_of(
    address: Seq<char>,
    mount: Seq<char>,
    state: Seq<char>,
    code: Seq<char>,
    nonce: Seq<char>,
) -> RequestView {
    RequestView {
        method: Method::Get,
        url: callback_url(address, mount),
        headers: seq![client_header()],
        query: seq![("state"@, state), ("code"@, code), ("client_nonce"@, nonce)],
        body: None,
        basic_user: None,
    }
}

/// The request that exchanges state and code for a token.
pub fn exchange_request(address: &str, mount: &str, state: &str, code: &str, nonce: &str) -> (r:
    HttpRequest)
    ensures
        r@ == exchange_of(address@, mount@, state@, code@, nonce@),
{
    let mut headers: Vec<(String, String)> = Vec::new();
    headers.push(("X-Vault-Request".to_owned(), "true".to_owned()));
    let mut query: Vec<(String, String)> = Vec::new();
    query.push(("state".to_owned(), state.to_owned()));
    query.push(("code".to_owned(), code.to_owned()));
    query.push(("client_nonce".to_owned(), nonce.to_owned()));
    let r = HttpRequest {
        method: Method::Get,
        url: make_callback_url(address, mount),
        headers,
        query,
        body: None,
        basic_user: None,
    };
    proof {
        let want = exchange_of(address@, mount@, state@, code@, nonce@);
        assert(pairs_view(r.headers@) =~= want.headers);
        assert(pairs_view(r.query@) =~= want.query);
    }
    r
}

/// The token in the reply to an exchange.
pub open spec fn token_of(v: JsonView) -> Option<Seq<char>> {
    match opt_str_of(opt_child_of(child_of(v, "auth"@), "client_token"@)) {
        Some(t) => if t.len() > 0 {
            Some(t)
        } else {
            None
        },
        None => None,
    }
}

/// The token that the reply to an exchange gives, or why it gives none.
pub open spec fn exchanged(r: ReplyView) -> Result<Seq<char>, Seq<char>> {
    if !succeeded(r.status) {
        Err(refusal("OIDC callback failed"@, r))
    } else {
        match json_parsed(r.body) {
            Err(m) => Err("OIDC callback parse error: "@ + m),
            Ok(v) => match token_of(v) {
                Some(t) => Ok(t),
                None => Err("OIDC callback returned no client_token."@),
            },
        }
    }
}

/// The token in the reply to an exchange.
pub fn token_in(v: &Json) -> (r: Option<String>)
    ensures
        opt_text(r) == token_of(v@),
{
    match text_in(child_in(v.child("auth"), "client_token")) {
        Some(t) => if is_empty(t.as_str()) {
            None
        } else {
            Some(t)
        },
        None => None,
    }
}

/// The token that the reply to an exchange gives, or why it gives none.
pub fn read_exchange(reply: &HttpReply) -> (r: Result<String, String>)
    ensures
        result_text(r) == exchanged(reply@),
{
    if !is_success(reply.status) {
        return Err(format_refusal("OIDC callback failed", reply));
    }
    match parse_json(reply.body.as_str()) {
        Err(m) => Err(concat("OIDC callback parse error: ", m.as_str())),
        Ok(v) => match token_in(&v) {
            Some(t) => Ok(t),
            None => Err("OIDC callback returned no client_token.".to_owned()),
        },
    }
}

/// The form that hands on a posted callback holds the nonce, and of the parameters
/// exactly state, code and token.
pub proof fn law_form_post_carries_parameters(
    address: Seq<char>,
    mount: Seq<char>,
    params: Map<Seq<char>, Seq<char>>,
    nonce: Seq<char>,
)
    ensures
        ({
            let request = form_post_of(address, mount, params, nonce);
            &&& request.method == Method::Post
            &&& request.url == address + "/v1/auth/"@ + mount + "/oidc/callback"@
            &&& request.headers.contains(
                ("Content-Type"@, "application/x-www-form-urlencoded"@),
            )
            &&& request.headers.contains(("X-Vault-Request"@, "true"@))
            &&& request.query.len() == 0
            &&& request.body is Some
            &&& lookup(params_of(request.body->0), "client_nonce"@) == Some(nonce)
            &&& lookup(params_of(request.body->0), "state"@) == lookup(params, "state"@)
            &&& lookup(params_of(request.body->0), "code"@) == lookup(params, "code"@)
            &&& lookup(params_of(request.body->0), "id_token"@) == lookup(params, "id_token"@)
        }),
{
    reveal_strlit("state");
    reveal_strlit("code");
    reveal_strlit("id_token");
    reveal_strlit("client_nonce");
    assert("state"@.len() == 5 && "code"@.len() == 4 && "id_token"@.len() == 8
        && "client_nonce"@.len() == 12);
    let request = form_post_of(address, mount, params, nonce);
    assert(request.headers[1] == ("Content-Type"@, "application/x-www-form-urlencoded"@));
    assert(request.headers[0] == ("X-Vault-Request"@, "true"@));
    let one = seq![("client_nonce"@, nonce)];
    let two = one + pair_if(params, "state"@);
    let three = two + pair_if(params, "code"@);
    let four = three + pair_if(params, "id_token"@);
    assert(one.drop_last() =~= Seq::empty());
    assert(map_of(one) =~= Map::empty().insert("client_nonce"@, nonce)) by {
        reveal_with_fuel(map_of, 2);
    }
    lemma_map_with_pair(one, params, "state"@);
    lemma_map_with_pair(two, params, "code"@);
    lemma_map_with_pair(three, params, "id_token"@);
    law_form_reads_back(four);
}

/// A pair more in the list, where the key has a value.
proof fn lemma_map_with_pair(
    pairs: Seq<(Seq<char>, Seq<char>)>,
    params: Map<Seq<char>, Seq<char>>,
    key: Seq<char>,
)
    ensures
        map_of(pairs + pair_if(params, key)) == if params.contains_key(key) {
            map_of(pairs).insert(key, params[key])
        } else {
            map_of(pairs)
        },
{
    let all = pairs + pair_if(params, key);
    if params.contains_key(key) {
        assert(all.drop_last() =~= pairs);
        assert(all.last() == (key, params[key]));
    } else {
        assert(all =~= pairs);
    }
}

/// The request for the sign-in address tells the server where the browser is to come
/// back, the nonce, and the role where there is one.
pub proof fn law_auth_url_request_names_return(
    address: Seq<char>,
    mount: Seq<char>,
    role: Seq<char>,
    redirect_uri: Seq<char>,
    nonce: Seq<char>,
)
    ensures
        ({
            let request = auth_url_request_of(address, mount, role, redirect_uri, nonce);
            &&& request.method == Method::Post
            &&& request.url == address + "/v1/auth/"@ + mount + "/oidc/auth_url"@
            &&& request.headers.contains(("Content-Type"@, "application/json"@))
            &&& request.headers.contains(("X-Vault-Request"@, "true"@))
            &&& exists|sent: JsonView|
                request.body == Some(#[trigger] rendered(sent)) && member_str(
                    sent,
                    "redirect_uri"@,
                ) == Some(redirect_uri) && member_str(sent, "client_nonce"@) == Some(nonce) && (
                role.len() > 0 ==> member_str(sent, "role"@) == Some(role)) && (role.len() == 0
                    ==> member_str(sent, "role"@) is None)
        }),
{
    reveal_strlit("client_nonce");
    reveal_strlit("redirect_uri");
    reveal_strlit("role");
    assert("client_nonce"@[0] == 'c' && "redirect_uri"@[0] == 'r' && "role"@.len() == 4
        && "redirect_uri"@.len() == 12 && "client_nonce"@.len() == 12);
    let request = auth_url_request_of(address, mount, role, redirect_uri, nonce);
    assert(request.headers[1] == ("Content-Type"@, "application/json"@));
    assert(request.headers[0] == ("X-Vault-Request"@, "true"@));
    let base = seq![
        ("client_nonce"@, JsonView::Str(nonce)),
        ("redirect_uri"@, JsonView::Str(redirect_uri)),
    ];
    let full = if role.len() > 0 {
        base.push(("role"@, JsonView::Str(role)))
    } else {
        base
    };
    let sent = JsonView::Object(full);
    reveal_with_fuel(crate::json::entry, 4);
    assert(full.drop_first()[0] == ("redirect_uri"@, JsonView::Str(redirect_uri)));
    if role.len() > 0 {
        assert(full.drop_first().drop_first()[0] == ("role"@, JsonView::Str(role)));
    }
    assert(request.body == Some(rendered(sent)));
}

/// The sign-in address is the one that the server names, where it is an address;
/// without one, or where the server refuses, there is none.
pub proof fn law_auth_url_is_the_servers(
    reply: ReplyView,
    data: JsonView,
    role: Seq<char>,
    redirect_uri: Seq<char>,
)
    requires
        json_parsed(reply.body) matches Ok(JsonView::Object(_)),
        member(json_parsed(reply.body)->Ok_0, "data"@) == Some(data),
        data is Object,
    ensures
        ({
            let r = auth_url_of(Ok(reply), role, redirect_uri);
            let named = member_str(data, "auth_url"@);
            &&& r is Ok <==> 200 <= reply.status < 300 && named is Some && named->0.len() > 0
                && url_error(named->0) is None
            &&& r is Ok ==> r->Ok_0 == named->0
        }),
{
    reveal_strlit("");
}

/// A reply that lists errors complains of them all, each as it stands.
pub proof fn law_errors_are_listed(v: JsonView, items: Seq<JsonView>, i: int)
    requires
        member_array(v, "errors"@) == Some(items),
        0 <= i < items.len(),
        str_of(items[i]) is Some,
    ensures
        errors_of(v) matches Some(e) && occurs(e, str_of(items[i])->0),
{
    lemma_texts_among(items, i);
    let all = texts_among(items);
    let k = choose|k: int| 0 <= k < all.len() && #[trigger] all[k] == str_of(items[i])->0;
    crate::split::law_joined_holds_parts(all, "; "@, k);
}

/// A text item is among the texts.
proof fn lemma_texts_among(items: Seq<JsonView>, i: int)
    requires
        0 <= i < items.len(),
        str_of(items[i]) is Some,
    ensures
        exists|k: int|
            0 <= k < texts_among(items).len() && #[trigger] texts_among(items)[k] == str_of(
                items[i],
            )->0,
    decreases items.len(),
{
    let t = items.drop_last();
    let all = texts_among(items);
    if i < t.len() {
        assert(t[i] == items[i]);
        lemma_texts_among(t, i);
        let before = texts_among(t);
        let k = choose|k: int| 0 <= k < before.len() && #[trigger] before[k] == str_of(t[i])->0;
        assert(all[k] == before[k]);
    } else {
        assert(all[all.len() - 1] == str_of(items[i])->0);
    }
}

/// A refusal tells what was asked, the status and the complaint, in this order.
pub proof fn law_refusal_tells_status(context: Seq<char>, r: ReplyView)
    ensures
        refusal(context, r) == context + " (HTTP "@ + decimal(r.status as nat) + "): "@
            + complaint(r.body),
        errors_of_text(r.body) is Some ==> complaint(r.body) == errors_of_text(r.body)->0,
        errors_of_text(r.body) is None && r.body.len() <= 300 ==> complaint(r.body) == r.body,
        errors_of_text(r.body) is None ==> complaint(r.body).len() <= 300 && crate::text::begins(
            r.body,
            complaint(r.body),
        ),
{
    if r.body.len() > 300 {
        assert(r.body.take(300).len() == 300);
    } else {
        assert(r.body.take(r.body.len() as int) =~= r.body);
    }
}

/// The reply to an exchange gives the token at `auth.client_token` where the exchange
/// succeeded; else the error tells the refusal, that the reply is no JSON, or that it holds
/// no token.
pub proof fn law_exchange_reply_gives_token(r: ReplyView)
    ensures
        !(200 <= r.status < 300) ==> exchanged(r) == Err::<Seq<char>, Seq<char>>(
            refusal("OIDC callback failed"@, r),
        ),
        200 <= r.status < 300 && json_parsed(r.body) is Err ==> exchanged(r) == Err::<
            Seq<char>,
            Seq<char>,
        >("OIDC callback parse error: "@ + json_parsed(r.body)->Err_0),
        200 <= r.status < 300 && json_parsed(r.body) is Ok && member(
            json_parsed(r.body)->Ok_0,
            "auth"@,
        ) is None && json_parsed(r.body)->Ok_0 is Object ==> exchanged(r) == Err::<
            Seq<char>,
            Seq<char>,
        >("OIDC callback returned no client_token."@),
        200 <= r.status < 300 && json_parsed(r.body) is Ok && member(
            json_parsed(r.body)->Ok_0,
            "auth"@,
        ) is Some && member_str(
            member(json_parsed(r.body)->Ok_0, "auth"@)->0,
            "client_token"@,
        ) is Some && member_str(
            member(json_parsed(r.body)->Ok_0, "auth"@)->0,
            "client_token"@,
        )->0.len() > 0 ==> exchanged(r) == Ok::<Seq<char>, Seq<char>>(
            member_str(member(json_parsed(r.body)->Ok_0, "auth"@)->0, "client_token"@)->0,
        ),
{
    if json_parsed(r.body) is Ok && member(json_parsed(r.body)->Ok_0, "auth"@) is Some {
        assert(json_parsed(r.body)->Ok_0 is Object);
    }
}

} // verus!
