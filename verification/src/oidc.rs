//! Browser sign-in at the secret server (OIDC, client callback mode).
//!
//! The client listens on a local port, sends the user's browser to the address
//! that the server names, and exchanges the `code` and `state` with which the
//! browser comes back for a token. `OidcLogin` holds the state of one sign-in.
//! It is told what happened and says what to do next.
use crate::bao::{
    complaint, complaint_of, exchange_of, exchange_request, exchanged, form_post_of,
    form_post_request, read_exchange,
};
use crate::bytes::{lossy_text, to_lossy};
use crate::digits::{
    decimal, hex_lower, hex_lower_digit, parse_unsigned, to_decimal, unsigned_value,
};
use crate::html::{error_html, error_page, success_html, success_page};
use crate::http::{
    format_send_error, http_response, is_success, outcome_view, parse_http_request, request_parts,
    response_text, send_error_text, succeeded, HttpReply, HttpRequest, Method, ReplyView,
    RequestView, SendError, SendErrorView,
};
use crate::json::{json_parsed, member, member_str, JsonView};
use crate::params::{lookup, Params};
use crate::split::{around_first, split_once};
use crate::text::{
    begins, concat, drop_around, drop_trailing, is_empty, opt_text, or_else, starts_with, str_eq,
    trim, trim_around, trim_trailing, trimmed, CharClass,
};
use crate::urlenc::{form_params, params_of, query_params};
use vstd::prelude::*;
use vstd::string::*;
use vstd::utf8::*;

verus! {

/// Where and how to sign in.
#[derive(Debug, Clone)]
pub struct OidcLoginConfig {
    pub address: String,
    pub mount: String,
    pub role: String,
    pub listen_port: u16,
}

/// What a configuration holds.
pub struct ConfigView {
    pub address: Seq<char>,
    pub mount: Seq<char>,
    pub role: Seq<char>,
    pub listen_port: u16,
}

impl View for OidcLoginConfig {
    type V = ConfigView;

    open spec fn view(&self) -> ConfigView {
        ConfigView {
            address: self.address@,
            mount: self.mount@,
            role: self.role@,
            listen_port: self.listen_port,
        }
    }
}

/// The port on which the browser comes back, unless another is asked for.
pub const DEFAULT_PORT: u16 = 8251;

/// The configuration without any settings.
pub open spec fn default_config() -> ConfigView {
    ConfigView { address: ""@, mount: "oidc"@, role: ""@, listen_port: DEFAULT_PORT }
}

impl Default for OidcLoginConfig {
    fn default() -> (r: OidcLoginConfig)
        ensures
            r@ == default_config(),
    {
        OidcLoginConfig {
            address: "".to_owned(),
            mount: "oidc".to_owned(),
            role: "".to_owned(),
            listen_port: DEFAULT_PORT,
        }
    }
}

/// The environment variables that bear on a sign-in, where they are set.
pub struct OidcEnv {
    pub bao_mount: Option<String>,
    pub vault_mount: Option<String>,
    pub bao_role: Option<String>,
    pub vault_role: Option<String>,
    pub manager_port: Option<String>,
    pub bao_port: Option<String>,
    pub vault_port: Option<String>,
}

/// The port that a text writes, where it is one.
pub open spec fn port_of(s: Seq<char>) -> Option<u16> {
    match unsigned_value(trimmed(s)) {
        Some(v) => if 0 < v <= u16::MAX {
            Some(v as u16)
        } else {
            None
        },
        None => None,
    }
}

/// The mount in a text: without white space and slashes around it.
pub open spec fn mount_of(s: Seq<char>) -> Seq<char> {
    drop_around(trimmed(s), CharClass::Only('/'))
}

/// The configuration that the environment asks for.
pub open spec fn env_config(e: OidcEnv) -> ConfigView {
    let base = default_config();
    ConfigView {
        address: base.address,
        mount: match or_else(opt_text(e.bao_mount), opt_text(e.vault_mount)) {
            Some(m) => if mount_of(m).len() > 0 {
                mount_of(m)
            } else {
                base.mount
            },
            None => base.mount,
        },
        role: match or_else(opt_text(e.bao_role), opt_text(e.vault_role)) {
            Some(r) => trimmed(r),
            None => base.role,
        },
        listen_port: match or_else(
            opt_text(e.manager_port),
            or_else(opt_text(e.bao_port), opt_text(e.vault_port)),
        ) {
            Some(p) => match port_of(p) {
                Some(port) => port,
                None => base.listen_port,
            },
            None => base.listen_port,
        },
    }
}

/// The first of two optional texts that is there.
fn first_set<'a>(a: &'a Option<String>, b: &'a Option<String>) -> (r: &'a Option<String>)
    ensures
        opt_text(*r) == or_else(opt_text(*a), opt_text(*b)),
{
    if a.is_some() {
        a
    } else {
        b
    }
}

impl OidcLoginConfig {
    /// The configuration that the environment asks for.
    pub fn from_env_defaults(env: &OidcEnv) -> (r: OidcLoginConfig)
        ensures
            r@ == env_config(*env),
    {
        let mut cfg = OidcLoginConfig::default();
        if let Some(m) = first_set(&env.bao_mount, &env.vault_mount) {
            let m = trim_around(trim(m.as_str()), CharClass::Only('/'));
            if !is_empty(m) {
                cfg.mount = m.to_owned();
            }
        }
        if let Some(r) = first_set(&env.bao_role, &env.vault_role) {
            cfg.role = trim(r.as_str()).to_owned();
        }
        if let Some(p) = first_set(&env.manager_port, first_set(&env.bao_port, &env.vault_port)) {
            if let Some(port) = parse_unsigned(trim(p.as_str()), 65535) {
                if port > 0 {
                    cfg.listen_port = port as u16;
                }
            }
        }
        cfg
    }
}

/// A sign-in that can be started.
pub struct LoginPlan {
    pub address: String,
    pub mount: String,
    pub role: String,
    /// Where to listen for the browser.
    pub listen_addr: String,
    /// Where the browser is sent back to.
    pub redirect_uri: String,
}

/// What a plan holds.
pub struct PlanView {
    pub address: Seq<char>,
    pub mount: Seq<char>,
    pub role: Seq<char>,
    pub listen_addr: Seq<char>,
    pub redirect_uri: Seq<char>,
}

impl View for LoginPlan {
    type V = PlanView;

    open spec fn view(&self) -> PlanView {
        PlanView {
            address: self.address@,
            mount: self.mount@,
            role: self.role@,
            listen_addr: self.listen_addr@,
            redirect_uri: self.redirect_uri@,
        }
    }
}

/// The server address in a text: without white space around it and slashes behind it.
pub open spec fn address_of(s: Seq<char>) -> Seq<char> {
    drop_trailing(trimmed(s), CharClass::Only('/'))
}

/// The sign-in that a configuration asks for; there is none without a server address.
pub open spec fn plan_of(c: ConfigView) -> Option<PlanView> {
    if address_of(c.address).len() == 0 {
        None
    } else {
        let port = decimal(
            if c.listen_port == 0 {
                DEFAULT_PORT as nat
            } else {
                c.listen_port as nat
            },
        );
        Some(
            PlanView {
                address: address_of(c.address),
                mount: if mount_of(c.mount).len() == 0 {
                    "oidc"@
                } else {
                    mount_of(c.mount)
                },
                role: trimmed(c.role),
                listen_addr: "127.0.0.1:"@ + port,
                redirect_uri: "http://localhost:"@ + port + "/oidc/callback"@,
            },
        )
    }
}

/// The sign-in that a configuration asks for.
pub fn plan_login(config: &OidcLoginConfig) -> (r: Result<LoginPlan, String>)
    ensures
        match r {
            Ok(p) => plan_of(config@) == Some(p@),
            Err(e) => plan_of(config@) is None && e@ == "Server address is required."@,
        },
{
    let address = trim_trailing(trim(config.address.as_str()), CharClass::Only('/'));
    if is_empty(address) {
        return Err("Server address is required.".to_owned());
    }
    let m = trim_around(trim(config.mount.as_str()), CharClass::Only('/'));
    let mount = if is_empty(m) {
        "oidc".to_owned()
    } else {
        m.to_owned()
    };
    let port: u16 = if config.listen_port == 0 {
        DEFAULT_PORT
    } else {
        config.listen_port
    };
    let digits = to_decimal(port as u64);
    let mut redirect_uri = concat("http://localhost:", digits.as_str());
    redirect_uri.append("/oidc/callback");
    Ok(
        LoginPlan {
            address: address.to_owned(),
            mount,
            role: trim(config.role.as_str()).to_owned(),
            listen_addr: concat("127.0.0.1:", digits.as_str()),
            redirect_uri,
        },
    )
}

/// The bytes of a nonce as hexadecimal digits.
pub open spec fn hex_of(bytes: Seq<u8>) -> Seq<char>
    decreases bytes.len(),
{
    if bytes.len() == 0 {
        Seq::empty()
    } else {
        hex_of(bytes.drop_last()).push(hex_lower(bytes.last() as int / 16)).push(
            hex_lower(bytes.last() as int % 16),
        )
    }
}

/// The bytes of a nonce as hexadecimal digits.
pub fn nonce_text(bytes: &Vec<u8>) -> (r: String)
    ensures
        r@ == hex_of(bytes@),
{
    let mut out = String::new();
    let mut i: usize = 0;
    while i < bytes.len()
        invariant
            i <= bytes@.len(),
            out@ == hex_of(bytes@.take(i as int)),
        decreases bytes.len() - i,
    {
        assert(bytes@.take(i + 1).drop_last() =~= bytes@.take(i as int));
        out.push(hex_lower_digit(bytes[i] / 16));
        out.push(hex_lower_digit(bytes[i] % 16));
        i += 1;
    }
    assert(bytes@.take(i as int) =~= bytes@);
    out
}

/// What a sign-in reports.
#[derive(Debug, Clone)]
pub enum OidcLoginEvent {
    /// The address at which to sign in is known, and a browser was asked to open it.
    Ready {
        auth_url: String,
        /// Why the browser could not be started, where it could not.
        browser_error: Option<String>,
    },
    /// The sign-in gave a token.
    Success { token: String },
    /// The sign-in failed, was cancelled or timed out.
    Failed(String),
}

/// What an event holds.
pub enum EventView {
    Ready { auth_url: Seq<char>, browser_error: Option<Seq<char>> },
    Success { token: Seq<char> },
    Failed(Seq<char>),
}

impl View for OidcLoginEvent {
    type V = EventView;

    open spec fn view(&self) -> EventView {
        match self {
            OidcLoginEvent::Ready { auth_url, browser_error } => EventView::Ready {
                auth_url: auth_url@,
                browser_error: opt_text(*browser_error),
            },
            OidcLoginEvent::Success { token } => EventView::Success { token: token@ },
            OidcLoginEvent::Failed(m) => EventView::Failed(m@),
        }
    }
}

/// What the events of a list hold.
pub open spec fn events_view(v: Seq<OidcLoginEvent>) -> Seq<EventView> {
    v.map_values(|e: OidcLoginEvent| e@)
}

/// How far a sign-in is.
pub enum LoginStage {
    /// Waiting for the browser.
    Listening,
    /// The parameters of a posted callback are on their way to the server.
    Posting(Params),
    /// State and code are on their way to the server.
    Exchanging { state: String, code: String, retried: bool },
    /// Over.
    Done,
}

/// What a stage holds.
pub enum StageView {
    Listening,
    Posting(Map<Seq<char>, Seq<char>>),
    Exchanging { state: Seq<char>, code: Seq<char>, retried: bool },
    Done,
}

impl View for LoginStage {
    type V = StageView;

    open spec fn view(&self) -> StageView {
        match self {
            LoginStage::Listening => StageView::Listening,
            LoginStage::Posting(p) => StageView::Posting(p@),
            LoginStage::Exchanging { state, code, retried } => StageView::Exchanging {
                state: state@,
                code: code@,
                retried: *retried,
            },
            LoginStage::Done => StageView::Done,
        }
    }
}

/// A sign-in under way.
pub struct OidcLogin {
    pub address: String,
    pub mount: String,
    pub nonce: String,
    pub stage: LoginStage,
    /// Events that nobody has received yet.
    pub events: Vec<OidcLoginEvent>,
    pub cancelled: bool,
}

/// What a sign-in under way holds.
pub struct LoginView {
    pub address: Seq<char>,
    pub mount: Seq<char>,
    pub nonce: Seq<char>,
    pub stage: StageView,
    pub events: Seq<EventView>,
    pub cancelled: bool,
}

impl View for OidcLogin {
    type V = LoginView;

    open spec fn view(&self) -> LoginView {
        LoginView {
            address: self.address@,
            mount: self.mount@,
            nonce: self.nonce@,
            stage: self.stage@,
            events: events_view(self.events@),
            cancelled: self.cancelled,
        }
    }
}

/// What to do next in a sign-in.
pub enum LoginAction {
    /// See whether a browser has connected.
    Accept,
    /// Wait 50 ms, and look again.
    Pause,
    /// Read what the connected browser sends.
    Read,
    /// Answer the browser, if there is an answer, close the connection, and look again.
    Close { response: Option<String> },
    /// Send a request to the server while the browser waits.
    Send { request: HttpRequest },
    /// Wait 250 ms, and send the request to the server.
    SendAgain { request: HttpRequest },
    /// Answer the browser, if one waits, and stop.
    Finish { response: Option<String> },
}

/// What an action holds.
pub enum ActionView {
    Accept,
    Pause,
    Read,
    Close { response: Option<Seq<char>> },
    Send { request: RequestView },
    SendAgain { request: RequestView },
    Finish { response: Option<Seq<char>> },
}

impl View for LoginAction {
    type V = ActionView;

    open spec fn view(&self) -> ActionView {
        match self {
            LoginAction::Accept => ActionView::Accept,
            LoginAction::Pause => ActionView::Pause,
            LoginAction::Read => ActionView::Read,
            LoginAction::Close { response } => ActionView::Close { response: opt_text(*response) },
            LoginAction::Send { request } => ActionView::Send { request: request@ },
            LoginAction::SendAgain { request } => ActionView::SendAgain { request: request@ },
            LoginAction::Finish { response } => ActionView::Finish {
                response: opt_text(*response),
            },
        }
    }
}

/// What can happen to a sign-in.
pub enum LoginInput {
    /// A look at the clock: has it run out?
    Tick { timed_out: bool },
    /// No browser has connected.
    Idle,
    /// Listening failed.
    ListenFailed { error: Seq<char> },
    /// A browser has connected.
    Accepted,
    /// It sent this request; an empty one where it sent nothing.
    Request { text: Seq<char> },
    /// The server replied, or could not be reached.
    Reply { outcome: Result<ReplyView, SendErrorView> },
}

/// The sign-in over, with an event and perhaps an answer for the browser.
pub open spec fn ended(v: LoginView, event: EventView, response: Option<Seq<char>>) -> (
    LoginView,
    ActionView,
) {
    (
        LoginView { stage: StageView::Done, events: v.events.push(event), ..v },
        ActionView::Finish { response },
    )
}

/// The sign-in failed: the browser is shown `detail`.
pub open spec fn failed(v: LoginView, detail: Seq<char>, message: Seq<char>) -> (
    LoginView,
    ActionView,
) {
    ended(
        v,
        EventView::Failed(message),
        Some(
            response_text(400, "text/html; charset=utf-8"@, error_page("Login failed"@, detail)),
        ),
    )
}

/// The value of a parameter; empty where it has none.
pub open spec fn param_or_empty(p: Map<Seq<char>, Seq<char>>, key: Seq<char>) -> Seq<char> {
    match lookup(p, key) {
        Some(v) => v,
        None => ""@,
    }
}

/// What the parameters of a callback lead to: a failure that the provider
/// reports, a failure for want of state or code, or an exchange of the two.
pub open spec fn decided(v: LoginView, p: Map<Seq<char>, Seq<char>>) -> (LoginView, ActionView) {
    let state = param_or_empty(p, "state"@);
    let code = param_or_empty(p, "code"@);
    match lookup(p, "error"@) {
        Some(err) => {
            let desc = match lookup(p, "error_description"@) {
                Some(d) => d,
                None => err,
            };
            failed(v, desc, "OIDC provider error: "@ + desc)
        },
        None => if state.len() == 0 || code.len() == 0 {
            failed(
                v,
                "Missing state or code in callback."@,
                "OIDC callback missing state or code."@,
            )
        } else {
            (
                LoginView { stage: StageView::Exchanging { state, code, retried: false }, ..v },
                ActionView::Send {
                    request: exchange_of(v.address, v.mount, state, code, v.nonce),
                },
            )
        },
    }
}

/// The query string of a request's target.
pub open spec fn query_of(target: Seq<char>) -> Seq<char> {
    match around_first(target, "?"@) {
        Some((_, q)) => q,
        None => ""@,
    }
}

/// What a browser's request leads to. What is no request is not answered;
/// other targets are answered 404, other methods 405.
pub open spec fn on_request(v: LoginView, text: Seq<char>) -> (LoginView, ActionView) {
    match request_parts(text) {
        None => (v, ActionView::Close { response: None }),
        Some((method, target, body)) => if !begins(target, "/oidc/callback"@) {
            (
                v,
                ActionView::Close {
                    response: Some(response_text(404, "text/plain"@, "not found"@)),
                },
            )
        } else if method == "GET"@ {
            decided(v, params_of(query_of(target)))
        } else if method == "POST"@ {
            let p = params_of(query_of(target)).union_prefer_right(params_of(body));
            (
                LoginView { stage: StageView::Posting(p), ..v },
                ActionView::Send { request: form_post_of(v.address, v.mount, p, v.nonce) },
            )
        } else {
            (
                v,
                ActionView::Close {
                    response: Some(response_text(405, "text/plain"@, "method not allowed"@)),
                },
            )
        },
    }
}

/// What the server's reply leads to.
pub open spec fn on_reply(v: LoginView, outcome: Result<ReplyView, SendErrorView>) -> (
    LoginView,
    ActionView,
) {
    match v.stage {
        StageView::Posting(p) => match outcome {
            Err(e) => {
                let m = send_error_text("OIDC form_post failed"@, e);
                failed(v, m, m)
            },
            Ok(r) => if succeeded(r.status) {
                decided(v, p.remove("id_token"@))
            } else {
                failed(v, complaint(r.body), complaint(r.body))
            },
        },
        StageView::Exchanging { state, code, retried } => match outcome {
            Err(e) => if retried {
                let m = send_error_text("OIDC callback failed"@, e);
                failed(v, m, m)
            } else {
                (
                    LoginView { stage: StageView::Exchanging { state, code, retried: true }, ..v },
                    ActionView::SendAgain {
                        request: exchange_of(v.address, v.mount, state, code, v.nonce),
                    },
                )
            },
            Ok(r) => match exchanged(r) {
                Ok(token) => ended(
                    v,
                    EventView::Success { token },
                    Some(response_text(200, "text/html; charset=utf-8"@, success_page())),
                ),
                Err(m) => failed(v, m, m),
            },
        },
        _ => (v, ActionView::Close { response: None }),
    }
}

/// The sign-in after something happened, and what to do next.
pub open spec fn login_next(v: LoginView, input: LoginInput) -> (LoginView, ActionView) {
    if v.stage is Done {
        (v, ActionView::Finish { response: None })
    } else {
        match input {
            LoginInput::Tick { timed_out } => if v.cancelled {
                ended(v, EventView::Failed("OIDC login cancelled."@), None)
            } else if timed_out {
                ended(v, EventView::Failed("Timed out waiting for OIDC provider."@), None)
            } else {
                (v, ActionView::Accept)
            },
            LoginInput::Idle => (v, ActionView::Pause),
            LoginInput::ListenFailed { error } => ended(
                v,
                EventView::Failed("OIDC listener error: "@ + error),
                None,
            ),
            LoginInput::Accepted => if v.cancelled {
                ended(v, EventView::Failed("OIDC login cancelled."@), None)
            } else {
                (v, ActionView::Read)
            },
            LoginInput::Request { text } => on_request(v, text),
            LoginInput::Reply { outcome } => on_reply(v, outcome),
        }
    }
}

/// For how long a sign-in waits for the browser, in milliseconds.
pub const LOGIN_TIMEOUT_MS: u64 = 120_000;

/// Has a sign-in that began this long ago waited too long?
pub fn login_timed_out(elapsed_ms: u64) -> (r: bool)
    ensures
        r == (elapsed_ms > LOGIN_TIMEOUT_MS),
{
    elapsed_ms > LOGIN_TIMEOUT_MS
}

impl OidcLogin {
    /// A sign-in that waits for the browser, which was sent to `auth_url`.
    pub fn new(
        plan: &LoginPlan,
        nonce: String,
        auth_url: String,
        browser_error: Option<String>,
    ) -> (r: OidcLogin)
        ensures
            r@ == (LoginView {
                address: plan@.address,
                mount: plan@.mount,
                nonce: nonce@,
                stage: StageView::Listening,
                events: seq![
                    EventView::Ready {
                        auth_url: auth_url@,
                        browser_error: opt_text(browser_error),
                    },
                ],
                cancelled: false,
            }),
    {
        let mut events: Vec<OidcLoginEvent> = Vec::new();
        let ready = OidcLoginEvent::Ready { auth_url, browser_error };
        events.push(ready);
        assert(events_view(events@) =~= seq![ready@]);
        OidcLogin {
            address: plan.address.clone(),
            mount: plan.mount.clone(),
            nonce,
            stage: LoginStage::Listening,
            events,
            cancelled: false,
        }
    }

    /// The next event that nobody has received yet.
    pub fn try_recv(&mut self) -> (r: Option<OidcLoginEvent>)
        ensures
            match r {
                Some(e) => old(self)@.events.len() > 0 && e@ == old(self)@.events[0] && final(self)@
                    == (LoginView { events: old(self)@.events.skip(1), ..old(self)@ }),
                None => old(self)@.events.len() == 0 && final(self)@ == old(self)@,
            },
    {
        if self.events.len() == 0 {
            None
        } else {
            let ghost before = self.events@;
            let e = self.events.remove(0);
            assert(events_view(self.events@) =~= events_view(before).skip(1));
            Some(e)
        }
    }

    /// Asks the sign-in to stop.
    pub fn cancel(&mut self)
        ensures
            final(self)@ == (LoginView { cancelled: true, ..old(self)@ }),
    {
        self.cancelled = true;
    }

    /// Ends the sign-in with an event.
    fn end(&mut self, event: OidcLoginEvent, response: Option<String>) -> (r: LoginAction)
        ensures
            (final(self)@, r@) == ended(old(self)@, event@, opt_text(response)),
    {
        let ghost before = self.events@;
        self.stage = LoginStage::Done;
        self.events.push(event);
        assert(events_view(self.events@) =~= events_view(before).push(event@));
        LoginAction::Finish { response }
    }

    /// Ends the sign-in with a failure that the browser is shown.
    fn fail(&mut self, detail: &str, message: String) -> (r: LoginAction)
        ensures
            (final(self)@, r@) == failed(old(self)@, detail@, message@),
    {
        let page = error_html("Login failed", detail);
        let response = http_response(400, "text/html; charset=utf-8", page.as_str());
        self.end(OidcLoginEvent::Failed(message), Some(response))
    }

    /// Goes on with the parameters of a callback.
    fn decide(&mut self, params: &Params) -> (r: LoginAction)
        ensures
            (final(self)@, r@) == decided(old(self)@, params@),
    {
        if let Some(err) = params.value("error") {
            let desc = match params.value("error_description") {
                Some(d) => d,
                None => err,
            };
            let message = concat("OIDC provider error: ", desc.as_str());
            return self.fail(desc.as_str(), message);
        }
        let state = match params.value("state") {
            Some(s) => s,
            None => "".to_owned(),
        };
        let code = match params.value("code") {
            Some(s) => s,
            None => "".to_owned(),
        };
        if is_empty(state.as_str()) || is_empty(code.as_str()) {
            return self.fail(
                "Missing state or code in callback.",
                "OIDC callback missing state or code.".to_owned(),
            );
        }
        let request = exchange_request(
            self.address.as_str(),
            self.mount.as_str(),
            state.as_str(),
            code.as_str(),
            self.nonce.as_str(),
        );
        self.stage = LoginStage::Exchanging { state, code, retried: false };
        LoginAction::Send { request }
    }

    /// Is the sign-in over?
    pub fn is_done(&self) -> (r: bool)
        ensures
            r == (self@.stage is Done),
    {
        match &self.stage {
            LoginStage::Done => true,
            _ => false,
        }
    }

    /// Goes on after a look at the clock; `login_timed_out` tells whether it has
    /// taken too long.
    pub fn tick(&mut self, timed_out: bool) -> (r: LoginAction)
        ensures
            (final(self)@, r@) == login_next(old(self)@, LoginInput::Tick { timed_out }),
    {
        if self.is_done() {
            LoginAction::Finish { response: None }
        } else if self.cancelled {
            self.end(OidcLoginEvent::Failed("OIDC login cancelled.".to_owned()), None)
        } else if timed_out {
            self.end(OidcLoginEvent::Failed("Timed out waiting for OIDC provider.".to_owned()), None)
        } else {
            LoginAction::Accept
        }
    }

    /// Goes on after no browser had connected.
    pub fn idle(&mut self) -> (r: LoginAction)
        ensures
            (final(self)@, r@) == login_next(old(self)@, LoginInput::Idle),
    {
        if self.is_done() {
            LoginAction::Finish { response: None }
        } else {
            LoginAction::Pause
        }
    }

    /// Goes on after listening failed.
    pub fn listen_failed(&mut self, error: &str) -> (r: LoginAction)
        ensures
            (final(self)@, r@) == login_next(
                old(self)@,
                LoginInput::ListenFailed { error: error@ },
            ),
    {
        if self.is_done() {
            LoginAction::Finish { response: None }
        } else {
            self.end(OidcLoginEvent::Failed(concat("OIDC listener error: ", error)), None)
        }
    }

    /// Goes on after a browser connected.
    pub fn accepted(&mut self) -> (r: LoginAction)
        ensures
            (final(self)@, r@) == login_next(old(self)@, LoginInput::Accepted),
    {
        if self.is_done() {
            LoginAction::Finish { response: None }
        } else if self.cancelled {
            self.end(OidcLoginEvent::Failed("OIDC login cancelled.".to_owned()), None)
        } else {
            LoginAction::Read
        }
    }

    /// Goes on with the text of a browser's request.
    pub fn requested_text(&mut self, text: &str) -> (r: LoginAction)
        ensures
            (final(self)@, r@) == login_next(old(self)@, LoginInput::Request { text: text@ }),
    {
        if self.is_done() {
            return LoginAction::Finish { response: None };
        }
        let (method, target, body) = match parse_http_request(text) {
            Some(parts) => parts,
            None => return LoginAction::Close { response: None },
        };
        if !starts_with(target.as_str(), "/oidc/callback") {
            let response = http_response(404, "text/plain", "not found");
            return LoginAction::Close { response: Some(response) };
        }
        let query = match split_once(target.as_str(), "?") {
            Some((_, q)) => q,
            None => "".to_owned(),
        };
        if str_eq(method.as_str(), "GET") {
            let params = query_params(query.as_str());
            self.decide(&params)
        } else if str_eq(method.as_str(), "POST") {
            let mut params = query_params(query.as_str());
            let form = form_params(body.as_str());
            params.extend(&form);
            let request = form_post_request(
                self.address.as_str(),
                self.mount.as_str(),
                &params,
                self.nonce.as_str(),
            );
            self.stage = LoginStage::Posting(params);
            LoginAction::Send { request }
        } else {
            let response = http_response(405, "text/plain", "method not allowed");
            LoginAction::Close { response: Some(response) }
        }
    }

    /// Goes on with the bytes of a browser's request. A browser that sends
    /// nothing is not answered.
    pub fn requested(&mut self, bytes: &Vec<u8>) -> (r: LoginAction)
        ensures
            bytes@.len() > 0 ==> (final(self)@, r@) == login_next(
                old(self)@,
                LoginInput::Request { text: lossy_text(bytes@) },
            ),
            bytes@.len() > 0 && valid_utf8(bytes@) ==> (final(self)@, r@) == login_next(
                old(self)@,
                LoginInput::Request { text: decode_utf8(bytes@) },
            ),
            bytes@.len() == 0 && old(self)@.stage !is Done ==> final(self)@ == old(self)@ && r@
                == (ActionView::Close { response: None }),
            old(self)@.stage is Done ==> final(self)@ == old(self)@ && r@ == (ActionView::Finish {
                response: None,
            }),
    {
        if self.is_done() {
            return LoginAction::Finish { response: None };
        }
        if bytes.len() == 0 {
            return LoginAction::Close { response: None };
        }
        let text = to_lossy(bytes);
        self.requested_text(text.as_str())
    }

    /// Goes on with the server's reply.
    pub fn replied(&mut self, outcome: &Result<HttpReply, SendError>) -> (r: LoginAction)
        ensures
            (final(self)@, r@) == login_next(
                old(self)@,
                LoginInput::Reply { outcome: outcome_view(*outcome) },
            ),
    {
        let ghost before = self@;
        let mut stage = LoginStage::Done;
        std::mem::swap(&mut stage, &mut self.stage);
        match stage {
            LoginStage::Done => LoginAction::Finish { response: None },
            LoginStage::Listening => {
                self.stage = LoginStage::Listening;
                LoginAction::Close { response: None }
            },
            LoginStage::Posting(params) => match outcome {
                Err(e) => {
                    let m = format_send_error("OIDC form_post failed", e);
                    self.fail(m.as_str(), m.clone())
                },
                Ok(reply) => if is_success(reply.status) {
                    let mut rest = params;
                    rest.remove("id_token");
                    self.stage = LoginStage::Listening;
                    self.decide(&rest)
                } else {
                    let m = complaint_of(reply.body.as_str());
                    self.fail(m.as_str(), m.clone())
                },
            },
            LoginStage::Exchanging { state, code, retried } => match outcome {
                Err(e) => if retried {
                    let m = format_send_error("OIDC callback failed", e);
                    self.fail(m.as_str(), m.clone())
                } else {
                    let request = exchange_request(
                        self.address.as_str(),
                        self.mount.as_str(),
                        state.as_str(),
                        code.as_str(),
                        self.nonce.as_str(),
                    );
                    self.stage = LoginStage::Exchanging { state, code, retried: true };
                    LoginAction::SendAgain { request }
                },
                Ok(reply) => match read_exchange(reply) {
                    Ok(token) => {
                        let page = success_html();
                        let response = http_response(
                            200,
                            "text/html; charset=utf-8",
                            page.as_str(),
                        );
                        self.end(OidcLoginEvent::Success { token }, Some(response))
                    },
                    Err(m) => self.fail(m.as_str(), m.clone()),
                },
            },
        }
    }
}

/// A sign-in that is over stays as it is, whatever happens.
pub proof fn law_done_is_final(v: LoginView, input: LoginInput)
    requires
        v.stage is Done,
    ensures
        login_next(v, input) == (v, ActionView::Finish { response: None }),
{
}

/// A sign-in reports its outcome once: nothing is reported until it is over,
/// and the step that ends it reports exactly one success or failure.
pub proof fn law_one_verdict(v: LoginView, input: LoginInput)
    requires
        v.stage !is Done,
    ensures
        ({
            let (w, action) = login_next(v, input);
            &&& w.stage is Done <==> action is Finish
            &&& w.stage !is Done ==> w.events == v.events
            &&& w.stage is Done ==> exists|e: EventView|
                w.events == #[trigger] v.events.push(e) && (e is Success || e is Failed)
        }),
{
}

/// A token is only reported where the server gave it in reply to an exchange
/// of state and code.
pub proof fn law_token_comes_from_exchange(v: LoginView, input: LoginInput, token: Seq<char>)
    requires
        login_next(v, input).0.events == v.events.push(EventView::Success { token }),
    ensures
        v.stage is Exchanging,
        input matches LoginInput::Reply { outcome: Ok(r) } && exchanged(r) == Ok::<
            Seq<char>,
            Seq<char>,
        >(token),
{
    let w = login_next(v, input).0;
    assert(w.events.len() == v.events.len() + 1);
    assert(w.events.last() == EventView::Success { token });
}

/// Requests for other targets, and requests by other methods, are answered and
/// change nothing.
pub proof fn law_foreign_requests_change_nothing(v: LoginView, text: Seq<char>)
    requires
        v.stage !is Done,
        request_parts(text) matches Some((method, target, _)) && (!begins(target, "/oidc/callback"@)
            || (method != "GET"@ && method != "POST"@)),
    ensures
        login_next(v, LoginInput::Request { text }).0 == v,
        login_next(v, LoginInput::Request { text }).1 matches ActionView::Close {
            response: Some(t),
        } && (t == response_text(404, "text/plain"@, "not found"@) || t == response_text(
            405,
            "text/plain"@,
            "method not allowed"@,
        )),
{
}

/// An exchange that cannot be sent is tried once more, with the same request,
/// and fails the second time.
pub proof fn law_exchange_is_retried_once(v: LoginView, e: SendErrorView, f: SendErrorView)
    requires
        v.stage matches StageView::Exchanging { retried, .. } && !retried,
    ensures
        ({
            let (w, action) = login_next(v, LoginInput::Reply { outcome: Err(e) });
            &&& v.stage matches StageView::Exchanging { state, code, .. } && action
                == (ActionView::SendAgain {
                request: exchange_of(v.address, v.mount, state, code, v.nonce),
            })
            &&& w.events == v.events
            &&& login_next(w, LoginInput::Reply { outcome: Err(f) }).0.stage is Done
        }),
{
}

/// The names of a callback's parameters are told apart.
proof fn lemma_names_differ()
    ensures
        "state"@ != "code"@,
        "state"@ != "id_token"@,
        "state"@ != "client_nonce"@,
        "code"@ != "id_token"@,
        "code"@ != "client_nonce"@,
        "id_token"@ != "client_nonce"@,
        "error"@ != "id_token"@,
        "error_description"@ != "id_token"@,
        "state"@.len() > 0,
        "code"@.len() > 0,
        "id_token"@.len() > 0,
        "client_nonce"@.len() > 0,
        ""@.len() == 0,
{
    reveal_strlit("state");
    reveal_strlit("code");
    reveal_strlit("id_token");
    reveal_strlit("client_nonce");
    reveal_strlit("error");
    reveal_strlit("error_description");
    reveal_strlit("");
    assert("state"@.len() == 5 && "code"@.len() == 4 && "id_token"@.len() == 8);
    assert("client_nonce"@.len() == 12 && "error"@.len() == 5 && "error_description"@.len() == 17);
}

/// The target of a callback: its path, and the query behind it.
pub open spec fn callback_target(query: Seq<char>) -> Seq<char> {
    "/oidc/callback?"@ + query
}

/// The query of a callback's target is what follows the question mark.
proof fn lemma_callback_target(query: Seq<char>)
    ensures
        begins(callback_target(query), "/oidc/callback"@),
        query_of(callback_target(query)) == query,
{
    reveal_strlit("/oidc/callback");
    reveal_strlit("/oidc/callback?");
    reveal_strlit("?");
    let t = callback_target(query);
    assert(t.take("/oidc/callback"@.len() as int) =~= "/oidc/callback"@);
    crate::text::lemma_first_at(t, "?"@, 0);
    assert(t.subrange(14, 15) =~= "?"@);
    assert(crate::text::occurs_at(t, "?"@, 14));
    let k = crate::text::first_at(t, "?"@, 0)->0;
    if k < 14 {
        assert(t.subrange(k, k + 1)[0] == "/oidc/callback?"@[k]);
    }
    assert(t.skip(15) =~= query);
}

/// The state and the code of a callback are exchanged for a token: the state as
/// `state`, the code as `code`, with the nonce of this sign-in, at the server's side of
/// the callback. Both are kept for a second try, and nothing else changes.
pub proof fn law_callback_is_exchanged(
    v: LoginView,
    text: Seq<char>,
    query: Seq<char>,
    state: Seq<char>,
    code: Seq<char>,
)
    requires
        v.stage !is Done,
        request_parts(text) matches Some((method, target, _)) && method == "GET"@ && target
            == callback_target(query),
        !params_of(query).contains_key("error"@),
        params_of(query).contains_pair("state"@, state),
        params_of(query).contains_pair("code"@, code),
        state.len() > 0,
        code.len() > 0,
    ensures
        ({
            let (w, action) = login_next(v, LoginInput::Request { text });
            &&& w == (LoginView {
                stage: StageView::Exchanging { state, code, retried: false },
                ..v
            })
            &&& action matches ActionView::Send { request } && is_exchange(v, request, state, code)
        }),
{
    lemma_callback_target(query);
    lemma_names_differ();
}

/// Does the request ask the server for a token in exchange for state and code?
pub open spec fn is_exchange(
    v: LoginView,
    request: RequestView,
    state: Seq<char>,
    code: Seq<char>,
) -> bool {
    &&& request.method == Method::Get
    &&& request.url == v.address + "/v1/auth/"@ + v.mount + "/oidc/callback"@
    &&& request.query == seq![("state"@, state), ("code"@, code), ("client_nonce"@, v.nonce)]
    &&& request.body is None
    &&& request.basic_user is None
    &&& request.headers == seq![("X-Vault-Request"@, "true"@)]
}

/// What the browser sends back as state and code reaches the server as state and code:
/// from the request's first line to the exchange.
pub proof fn law_browser_request_is_exchanged(
    v: LoginView,
    state: Seq<char>,
    code: Seq<char>,
    rest: Seq<char>,
)
    requires
        v.stage !is Done,
        state.len() > 0,
        code.len() > 0,
    ensures
        ({
            let query = crate::urlenc::form_encoded(seq![("code"@, code), ("state"@, state)]);
            let text = "GET"@ + seq![' '] + callback_target(query) + " HTTP/1.1\r\n"@ + rest;
            let (w, action) = login_next(v, LoginInput::Request { text });
            &&& w.stage == (StageView::Exchanging { state, code, retried: false })
            &&& action matches ActionView::Send { request } && is_exchange(v, request, state, code)
        }),
{
    lemma_names_differ();
    reveal_strlit("GET");
    reveal_strlit("error");
    reveal_strlit("/oidc/callback?");
    let pairs = seq![("code"@, code), ("state"@, state)];
    let query = crate::urlenc::form_encoded(pairs);
    let text = "GET"@ + seq![' '] + callback_target(query) + " HTTP/1.1\r\n"@ + rest;
    crate::urlenc::law_form_reads_back(pairs);
    assert(pairs.drop_last() =~= seq![("code"@, code)]);
    assert(seq![("code"@, code)].drop_last() =~= Seq::empty());
    assert(crate::params::map_of(pairs) =~= Map::empty().insert("code"@, code).insert(
        "state"@,
        state,
    )) by {
        reveal_with_fuel(crate::params::map_of, 3);
    }
    assert("error"@ != "code"@ && "error"@ != "state"@) by {
        reveal_strlit("state");
        reveal_strlit("code");
        assert("error"@[0] == 'e' && "state"@[0] == 's');
        assert("code"@.len() == 4 && "error"@.len() == 5);
    }
    let target = callback_target(query);
    crate::urlenc::law_form_has_no_white_space(pairs);
    assert forall|i: int| 0 <= i < target.len() implies !crate::text::is_ws(target[i]) by {
        if i < 15 {
            assert(target[i] == "/oidc/callback?"@[i]);
        } else {
            assert(target[i] == query[i - 15]);
        }
    }
    crate::http::law_request_line_is_read("GET"@, target, rest);
    law_callback_is_exchanged(v, text, query, state, code);
}

/// An error that the provider reports ends the sign-in, and is reported by its
/// description, or by its name where it has none; the browser is told too.
pub proof fn law_provider_error_ends_login(
    v: LoginView,
    text: Seq<char>,
    query: Seq<char>,
    error: Seq<char>,
)
    requires
        v.stage !is Done,
        request_parts(text) matches Some((method, target, _)) && method == "GET"@ && target
            == callback_target(query),
        params_of(query).contains_pair("error"@, error),
    ensures
        ({
            let (w, action) = login_next(v, LoginInput::Request { text });
            let told = if params_of(query).contains_key("error_description"@) {
                params_of(query)["error_description"@]
            } else {
                error
            };
            &&& w == (LoginView {
                stage: StageView::Done,
                events: v.events.push(EventView::Failed("OIDC provider error: "@ + told)),
                ..v
            })
            &&& action == (ActionView::Finish {
                response: Some(
                    response_text(
                        400,
                        "text/html; charset=utf-8"@,
                        error_page("Login failed"@, told),
                    ),
                ),
            })
        }),
{
    lemma_callback_target(query);
}

/// A callback that has no state or no code, or an empty one, ends the sign-in.
pub proof fn law_bare_callback_ends_login(v: LoginView, text: Seq<char>, query: Seq<char>)
    requires
        v.stage !is Done,
        request_parts(text) matches Some((method, target, _)) && method == "GET"@ && target
            == callback_target(query),
        !params_of(query).contains_key("error"@),
        (params_of(query).contains_key("state"@) ==> params_of(query)["state"@].len() == 0) || (
        params_of(query).contains_key("code"@) ==> params_of(query)["code"@].len() == 0),
    ensures
        ({
            let (w, action) = login_next(v, LoginInput::Request { text });
            &&& w == (LoginView {
                stage: StageView::Done,
                events: v.events.push(EventView::Failed("OIDC callback missing state or code."@)),
                ..v
            })
            &&& action matches ActionView::Finish { response: Some(_) }
        }),
{
    lemma_callback_target(query);
    lemma_names_differ();
}

/// Does the request hand the given parameters of a callback on to the server?
pub open spec fn passes_on(
    v: LoginView,
    request: RequestView,
    given: spec_fn(Seq<char>) -> Option<Seq<char>>,
) -> bool {
    &&& request.method == Method::Post
    &&& request.url == v.address + "/v1/auth/"@ + v.mount + "/oidc/callback"@
    &&& request.query.len() == 0
    &&& request.body is Some
    &&& lookup(params_of(request.body->0), "client_nonce"@) == Some(v.nonce)
    &&& lookup(params_of(request.body->0), "state"@) == given("state"@)
    &&& lookup(params_of(request.body->0), "code"@) == given("code"@)
    &&& lookup(params_of(request.body->0), "id_token"@) == given("id_token"@)
}

/// A posted callback hands its state, its code and its token to the server, with the
/// nonce of this sign-in; what the body says goes before what the query says.
pub proof fn law_posted_callback_is_passed_on(
    v: LoginView,
    text: Seq<char>,
    query: Seq<char>,
    body: Seq<char>,
)
    requires
        v.stage !is Done,
        request_parts(text) == Some(("POST"@, callback_target(query), body)),
    ensures
        ({
            let (w, action) = login_next(v, LoginInput::Request { text });
            let given = |key: Seq<char>|
                if params_of(body).contains_key(key) {
                    Some(params_of(body)[key])
                } else {
                    lookup(params_of(query), key)
                };
            &&& action matches ActionView::Send { request } && passes_on(v, request, given)
            &&& w.stage matches StageView::Posting(p) && forall|key: Seq<char>|
                #[trigger] lookup(p, key) == given(key)
            &&& w == (LoginView { stage: w.stage, ..v })
        }),
{
    lemma_callback_target(query);
    lemma_names_differ();
    reveal_strlit("GET");
    reveal_strlit("POST");
    assert("GET"@.len() == 3 && "POST"@.len() == 4);
    let p = params_of(query).union_prefer_right(params_of(body));
    crate::bao::law_form_post_carries_parameters(v.address, v.mount, p, v.nonce);
}

/// Where the server takes a posted callback, its state and its code are exchanged; where
/// it does not, the sign-in fails with what the server says.
pub proof fn law_posted_parameters_are_exchanged(
    v: LoginView,
    p: Map<Seq<char>, Seq<char>>,
    reply: ReplyView,
    state: Seq<char>,
    code: Seq<char>,
)
    requires
        v.stage == StageView::Posting(p),
        !p.contains_key("error"@),
        p.contains_pair("state"@, state),
        p.contains_pair("code"@, code),
        state.len() > 0,
        code.len() > 0,
    ensures
        ({
            let (w, action) = login_next(v, LoginInput::Reply { outcome: Ok(reply) });
            if 200 <= reply.status < 300 {
                &&& w.stage == (StageView::Exchanging { state, code, retried: false })
                &&& w.events == v.events
                &&& action matches ActionView::Send { request } && is_exchange(
                    v,
                    request,
                    state,
                    code,
                )
            } else {
                &&& w.stage is Done
                &&& w.events == v.events.push(EventView::Failed(complaint(reply.body)))
            }
        }),
{
    lemma_names_differ();
    let q = p.remove("id_token"@);
    assert(!q.contains_key("error"@));
    assert(q.contains_pair("state"@, state) && q.contains_pair("code"@, code));
}

/// The token in the server's reply to an exchange is the outcome of the sign-in; without
/// one the sign-in fails, and never succeeds.
pub proof fn law_exchange_gives_the_token(v: LoginView, reply: ReplyView, auth: JsonView)
    requires
        v.stage is Exchanging,
        json_parsed(reply.body) matches Ok(JsonView::Object(_)),
        member(json_parsed(reply.body)->Ok_0, "auth"@) == Some(auth),
        auth is Object,
    ensures
        ({
            let (w, action) = login_next(v, LoginInput::Reply { outcome: Ok(reply) });
            let given = member_str(auth, "client_token"@);
            &&& w.stage is Done
            &&& action matches ActionView::Finish { response: Some(_) }
            &&& if 200 <= reply.status < 300 && given is Some && given->0.len() > 0 {
                w.events == v.events.push(EventView::Success { token: given->0 })
            } else {
                exists|m: Seq<char>| w.events == #[trigger] v.events.push(EventView::Failed(m))
            }
        }),
{
    let (w, action) = login_next(v, LoginInput::Reply { outcome: Ok(reply) });
    let given = member_str(auth, "client_token"@);
    if !(200 <= reply.status < 300 && given is Some && given->0.len() > 0) {
        assert(w.events == v.events.push(w.events.last()));
        assert(w.events.last() is Failed);
        let m = w.events.last()->Failed_0;
        assert(w.events == v.events.push(EventView::Failed(m)));
    }
}

/// A look at the clock ends a sign-in that was cancelled or has timed out, and says
/// which; any other goes on as it is.
pub proof fn law_clock_ends_login(v: LoginView, timed_out: bool)
    requires
        v.stage !is Done,
    ensures
        ({
            let (w, action) = login_next(v, LoginInput::Tick { timed_out });
            &&& !v.cancelled && !timed_out ==> w == v && action is Accept
            &&& v.cancelled ==> w.events == v.events.push(
                EventView::Failed("OIDC login cancelled."@),
            )
            &&& !v.cancelled && timed_out ==> w.events == v.events.push(
                EventView::Failed("Timed out waiting for OIDC provider."@),
            )
            &&& v.cancelled || timed_out ==> w.stage is Done && action == (ActionView::Finish {
                response: None,
            })
        }),
        ({
            let (w, action) = login_next(v, LoginInput::Accepted);
            &&& !v.cancelled ==> w == v && action is Read
            &&& v.cancelled ==> w.stage is Done && w.events == v.events.push(
                EventView::Failed("OIDC login cancelled."@),
            )
        }),
        login_next(v, LoginInput::Idle) == (v, ActionView::Pause),
{
}

/// A request for another target is answered that it was not found, and one by another
/// method that the method is not allowed.
pub proof fn law_foreign_requests_are_refused(
    v: LoginView,
    text: Seq<char>,
    method: Seq<char>,
    target: Seq<char>,
    body: Seq<char>,
)
    requires
        v.stage !is Done,
        request_parts(text) == Some((method, target, body)),
    ensures
        ({
            let (w, action) = login_next(v, LoginInput::Request { text });
            &&& !begins(target, "/oidc/callback"@) ==> w == v && action == (ActionView::Close {
                response: Some(response_text(404, "text/plain"@, "not found"@)),
            })
            &&& begins(target, "/oidc/callback"@) && method != "GET"@ && method != "POST"@ ==> w
                == v && action == (ActionView::Close {
                response: Some(response_text(405, "text/plain"@, "method not allowed"@)),
            })
        }),
{
}

/// The browser is sent back to the port at which the sign-in listens; white space and
/// slashes around an address and a mount do not count.
pub proof fn law_plan_listens_where_browser_returns(c: ConfigView)
    ensures
        match plan_of(c) {
            Some(p) => {
                let port = if c.listen_port == 0 {
                    8251nat
                } else {
                    c.listen_port as nat
                };
                &&& p.listen_addr == "127.0.0.1:"@ + decimal(port)
                &&& p.redirect_uri == "http://localhost:"@ + decimal(port) + "/oidc/callback"@
                &&& p.address.len() > 0 && p.address.last() != '/'
                &&& p.mount.len() > 0
                &&& p.role == trimmed(c.role)
            },
            None => forall|i: int| 0 <= i < trimmed(c.address).len() ==> trimmed(c.address)[i]
                == '/',
        },
        c.address.len() > 0 && trimmed(c.address) == c.address && c.address.last() != '/' ==> (
        plan_of(c) matches Some(p) && p.address == c.address),
        trimmed(c.mount) == c.mount && c.mount.len() > 0 && c.mount[0] != '/' && c.mount.last()
            != '/' && plan_of(c) is Some ==> plan_of(c)->0.mount == c.mount,
        trimmed(c.mount).len() == 0 && plan_of(c) is Some ==> plan_of(c)->0.mount == "oidc"@,
{
    reveal_strlit("oidc");
    let slash = CharClass::Only('/');
    let a = trimmed(c.address);
    crate::text::lemma_drop_trailing(a, slash);
    if plan_of(c) is None {
        crate::text::lemma_trailing_within(a, slash);
        let n = choose|n: int|
            0 <= n <= a.len() && drop_trailing(a, slash) == #[trigger] a.take(n) && (forall|i: int|
                n <= i < a.len() ==> slash.has(#[trigger] a[i]));
        assert(a.take(n).len() == n);
        assert forall|i: int| 0 <= i < a.len() implies a[i] == '/' by {
            assert(slash.has(a[i]));
        }
    }
    if c.mount.len() > 0 && c.mount[0] != '/' && c.mount.last() != '/' {
        crate::text::lemma_drop_leading_none(c.mount, slash);
        crate::text::lemma_drop_trailing_none(c.mount, slash);
    }
}

/// Does the text write the number of a port?
pub open spec fn writes_port(o: Option<Seq<char>>) -> bool {
    o matches Some(p) && unsigned_value(trimmed(p)) matches Some(n) && 0 < n <= 65535
}

/// What the environment says of a sign-in: the OpenBao variables go before those of
/// Vault, and the manager's own port before both. A port that is none does not count.
pub proof fn law_environment_configures_login(e: OidcEnv)
    ensures
        ({
            let c = env_config(e);
            &&& c.address.len() == 0
            &&& opt_text(e.bao_role) is Some ==> c.role == trimmed(opt_text(e.bao_role)->0)
            &&& opt_text(e.bao_role) is None && opt_text(e.vault_role) is Some ==> c.role
                == trimmed(opt_text(e.vault_role)->0)
            &&& opt_text(e.bao_role) is None && opt_text(e.vault_role) is None ==> c.role.len()
                == 0
            &&& opt_text(e.bao_mount) is None && opt_text(e.vault_mount) is None ==> c.mount
                == "oidc"@
            &&& opt_text(e.bao_mount) is Some && mount_of(
                opt_text(e.bao_mount)->0,
            ).len() > 0 ==> c.mount
                == mount_of(opt_text(e.bao_mount)->0)
            &&& opt_text(e.bao_mount) is None && opt_text(e.vault_mount) is Some && mount_of(
                opt_text(e.vault_mount)->0,
            ).len() > 0 ==> c.mount == mount_of(opt_text(e.vault_mount)->0)
            &&& c.listen_port > 0
            &&& writes_port(opt_text(e.manager_port)) ==> c.listen_port == unsigned_value(
                trimmed(opt_text(e.manager_port)->0),
            )->0
            &&& opt_text(e.manager_port) is None && writes_port(opt_text(e.bao_port))
                ==> c.listen_port == unsigned_value(trimmed(opt_text(e.bao_port)->0))->0
            &&& opt_text(e.manager_port) is None && opt_text(e.bao_port) is None && writes_port(
                opt_text(e.vault_port),
            ) ==> c.listen_port == unsigned_value(trimmed(opt_text(e.vault_port)->0))->0
            &&& opt_text(e.manager_port) is Some && !writes_port(opt_text(e.manager_port))
                ==> c.listen_port == 8251
            &&& opt_text(e.manager_port) is None && opt_text(e.bao_port) is None && opt_text(
                e.vault_port,
            ) is None ==> c.listen_port == 8251
        }),
{
    reveal_strlit("");
    reveal_strlit("oidc");
}

/// Each byte of a nonce is written as two digits, the high one first.
pub proof fn law_nonce_has_two_digits_a_byte(bytes: Seq<u8>)
    ensures
        hex_of(bytes).len() == 2 * bytes.len(),
        forall|i: int|
            0 <= i < bytes.len() ==> hex_of(bytes)[2 * i] == hex_lower(#[trigger] bytes[i] as int / 16)
                && hex_of(bytes)[2 * i + 1] == hex_lower(bytes[i] as int % 16),
    decreases bytes.len(),
{
    if bytes.len() > 0 {
        let t = bytes.drop_last();
        law_nonce_has_two_digits_a_byte(t);
        assert forall|i: int| 0 <= i < bytes.len() implies hex_of(bytes)[2 * i] == hex_lower(
            #[trigger] bytes[i] as int / 16,
        ) && hex_of(bytes)[2 * i + 1] == hex_lower(bytes[i] as int % 16) by {
            if i < t.len() {
                assert(t[i] == bytes[i]);
                assert(hex_of(t)[2 * i] == hex_lower(t[i] as int / 16));
            }
        }
    }
}

/// A sign-in begins by listening, for the plan's server and mount and with its own nonce, and
/// reports the address to open, and why no browser opened.
pub proof fn law_sign_in_begins_by_listening(
    plan: LoginPlan,
    nonce: String,
    auth_url: String,
    browser_error: Option<String>,
    r: OidcLogin,
)
    requires
        call_ensures(OidcLogin::new, (&plan, nonce, auth_url, browser_error), r),
    ensures
        r@.address == plan@.address,
        r@.mount == plan@.mount,
        r@.nonce == nonce@,
        r@.stage is Listening,
        !r@.cancelled,
        r@.events == seq![
            EventView::Ready { auth_url: auth_url@, browser_error: opt_text(browser_error) },
        ],
{
}

/// A sign-in waits two minutes for the browser.
pub proof fn law_sign_in_waits_two_minutes(elapsed_ms: u64, r: bool)
    requires
        call_ensures(login_timed_out, (elapsed_ms,), r),
    ensures
        r <==> elapsed_ms > 2 * 60 * 1000,
{
}

/// What goes wrong on the way ends the sign-in and is told: listening, handing a posted
/// callback on, and an exchange that could not be sent twice.
pub proof fn law_failures_are_told(v: LoginView, error: Seq<char>, e: SendErrorView)
    requires
        v.stage !is Done,
    ensures
        login_next(v, LoginInput::ListenFailed { error }) == (
            LoginView {
                stage: StageView::Done,
                events: v.events.push(EventView::Failed("OIDC listener error: "@ + error)),
                ..v
            },
            ActionView::Finish { response: None },
        ),
        v.stage is Posting ==> login_next(v, LoginInput::Reply { outcome: Err(e) }).0 == (
        LoginView {
            stage: StageView::Done,
            events: v.events.push(
                EventView::Failed(send_error_text("OIDC form_post failed"@, e)),
            ),
            ..v
        }),
        v.stage is Exchanging && v.stage->retried ==> login_next(
            v,
            LoginInput::Reply { outcome: Err(e) },
        ).0 == (LoginView {
            stage: StageView::Done,
            events: v.events.push(EventView::Failed(send_error_text("OIDC callback failed"@, e))),
            ..v
        }),
        v.stage is Listening ==> login_next(v, LoginInput::Reply { outcome: Err(e) }).0 == v,
{
}

} // verus!
