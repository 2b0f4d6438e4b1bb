//! The cloud agents API: requests, and what its replies tell.
//!
//! Each operation is a function that is given the outcomes of the requests that
//! have been sent so far, and says which request to send next or what the
//! result is.
use crate::cloud::{
    agents_view, opt_agent, AgentView, CloudAgentDetail, CloudAgentSummary, CloudRunSnapshot,
    DetailView, RunView,
};
use crate::digits::{decimal, to_decimal};
use crate::http::{is_success, succeeded, HttpReply, HttpRequest, Method, ReplyView, RequestView};
use crate::json::{
    child_in, child_of, either_str, get_either, json_parsed, json_view, member, member_array,
    member_str, opt_child_of, opt_json, opt_str_of, parse_json, rendered, text_in, views, Json,
    JsonView,
};
use crate::params::pairs_view;
use crate::repo::{normalize_repo_url, repo_address};
use crate::split::{shorten, shortened};
use crate::text::{
    concat, concat3, is_empty, nonblank, opt_text, opt_view, or_else, own_opt, trim, trim_opt,
    trimmed,
};
use vstd::prelude::*;
use vstd::string::*;

verus! {

/// Why a request brought no reply.
pub enum ApiFailure {
    /// The client could not be set up.
    Setup(String),
    /// The request could not be sent.
    Send(String),
    /// The reply could not be read.
    Read(String),
}

/// What a failure holds.
pub enum FailureView {
    Setup(Seq<char>),
    Send(Seq<char>),
    Read(Seq<char>),
}

impl View for ApiFailure {
    type V = FailureView;

    open spec fn view(&self) -> FailureView {
        match self {
            ApiFailure::Setup(e) => FailureView::Setup(e@),
            ApiFailure::Send(e) => FailureView::Send(e@),
            ApiFailure::Read(e) => FailureView::Read(e@),
        }
    }
}

/// What an outcome holds.
pub open spec fn api_outcome(o: Result<HttpReply, ApiFailure>) -> Result<ReplyView, FailureView> {
    match o {
        Ok(r) => Ok(r@),
        Err(e) => Err(e@),
    }
}

/// What an optional outcome holds.
pub open spec fn opt_outcome(o: Option<&Result<HttpReply, ApiFailure>>) -> Option<
    Result<ReplyView, FailureView>,
> {
    match o {
        Some(x) => Some(api_outcome(*x)),
        None => None,
    }
}

/// The message in a refusal.
pub open spec fn message_of(v: JsonView) -> Option<Seq<char>> {
    nonblank(either_str(v, "message"@, "error"@))
}

/// The message in the text of a refusal.
pub open spec fn message_of_text(body: Seq<char>) -> Option<Seq<char>> {
    match json_parsed(body) {
        Ok(v) => message_of(v),
        Err(_) => None,
    }
}

/// The message in a refusal.
pub fn message_in(v: &Json) -> (r: Option<String>)
    ensures
        opt_text(r) == message_of(v@),
{
    trim_opt(get_either(v, "message", "error"))
}

/// The message in the text of a refusal.
pub fn extract_error_message(body: &str) -> (r: Option<String>)
    ensures
        opt_text(r) == message_of_text(body@),
{
    match parse_json(body) {
        Ok(v) => message_in(&v),
        Err(_) => None,
    }
}

/// What a refusal says: its status, and its message or its text.
pub open spec fn api_refusal(r: ReplyView) -> Seq<char> {
    let detail = match message_of_text(r.body) {
        Some(m) => m,
        None => trimmed(r.body),
    };
    if detail.len() == 0 {
        "HTTP "@ + decimal(r.status as nat)
    } else {
        "HTTP "@ + decimal(r.status as nat) + ": "@ + detail
    }
}

/// The value in a reply, or why there is none.
pub open spec fn api_value(
    verb: Seq<char>,
    url: Seq<char>,
    outcome: Result<ReplyView, FailureView>,
) -> Result<JsonView, Seq<char>> {
    match outcome {
        Err(FailureView::Setup(e)) => Err("HTTP client setup failed: "@ + e),
        Err(FailureView::Send(e)) => Err(verb + " "@ + url + " failed: "@ + e),
        Err(FailureView::Read(e)) => Err("read response body: "@ + e),
        Ok(r) => if !succeeded(r.status) {
            Err(api_refusal(r))
        } else {
            match json_parsed(r.body) {
                Ok(v) => Ok(v),
                Err(m) => Err("invalid JSON: "@ + m),
            }
        },
    }
}

/// A value or an error, by its contents.
pub open spec fn json_result(r: Result<Json, String>) -> Result<JsonView, Seq<char>> {
    match r {
        Ok(v) => Ok(v@),
        Err(e) => Err(e@),
    }
}

/// The value in a reply that came, or why there is none.
pub fn parse_json_response(reply: &HttpReply) -> (r: Result<Json, String>)
    ensures
        json_result(r) == api_value(""@, ""@, Ok(reply@)),
{
    if !is_success(reply.status) {
        let detail = match extract_error_message(reply.body.as_str()) {
            Some(m) => m,
            None => trim(reply.body.as_str()).to_owned(),
        };
        let mut out = concat("HTTP ", to_decimal(reply.status as u64).as_str());
        if !is_empty(detail.as_str()) {
            out.append(": ");
            out.append(detail.as_str());
        }
        return Err(out);
    }
    match parse_json(reply.body.as_str()) {
        Ok(v) => Ok(v),
        Err(m) => Err(concat("invalid JSON: ", m.as_str())),
    }
}

/// The value in a reply, or why there is none.
fn read_api(verb: &str, url: &str, outcome: &Result<HttpReply, ApiFailure>) -> (r: Result<
    Json,
    String,
>)
    ensures
        json_result(r) == api_value(verb@, url@, api_outcome(*outcome)),
{
    match outcome {
        Err(ApiFailure::Setup(e)) => Err(concat("HTTP client setup failed: ", e.as_str())),
        Err(ApiFailure::Send(e)) => {
            let mut out = concat3(verb, " ", url);
            out.append(" failed: ");
            out.append(e.as_str());
            Err(out)
        },
        Err(ApiFailure::Read(e)) => Err(concat("read response body: ", e.as_str())),
        Ok(reply) => parse_json_response(reply),
    }
}

/// A request to read something.
pub open spec fn get_of(api_key: Seq<char>, url: Seq<char>) -> RequestView {
    RequestView {
        method: Method::Get,
        url,
        headers: seq![("Accept"@, "application/json"@)],
        query: Seq::empty(),
        body: None,
        basic_user: Some(api_key),
    }
}

/// A request to read something.
fn api_get(api_key: &str, url: String) -> (r: HttpRequest)
    ensures
        r@ == get_of(api_key@, url@),
{
    let mut headers: Vec<(String, String)> = Vec::new();
    headers.push(("Accept".to_owned(), "application/json".to_owned()));
    let r = HttpRequest {
        method: Method::Get,
        url,
        headers,
        query: Vec::new(),
        body: None,
        basic_user: Some(api_key.to_owned()),
    };
    proof {
        let want = get_of(api_key@, url@);
        assert(pairs_view(r.headers@) =~= want.headers);
        assert(pairs_view(r.query@) =~= want.query);
    }
    r
}

/// A request to make something.
pub open spec fn post_of(api_key: Seq<char>, url: Seq<char>, body: JsonView) -> RequestView {
    RequestView {
        method: Method::Post,
        url,
        headers: seq![
            ("Accept"@, "application/json"@),
            ("Content-Type"@, "application/json"@),
        ],
        query: Seq::empty(),
        body: Some(rendered(body)),
        basic_user: Some(api_key),
    }
}

/// A request to make something.
fn api_post(api_key: &str, url: &str, body: &Json) -> (r: HttpRequest)
    ensures
        r@ == post_of(api_key@, url@, body@),
{
    let mut headers: Vec<(String, String)> = Vec::new();
    headers.push(("Accept".to_owned(), "application/json".to_owned()));
    headers.push(("Content-Type".to_owned(), "application/json".to_owned()));
    let r = HttpRequest {
        method: Method::Post,
        url: url.to_owned(),
        headers,
        query: Vec::new(),
        body: Some(body.render()),
        basic_user: Some(api_key.to_owned()),
    };
    proof {
        let want = post_of(api_key@, url@, body@);
        assert(pairs_view(r.headers@) =~= want.headers);
        assert(pairs_view(r.query@) =~= want.query);
    }
    r
}

/// The first branch that a value tells of.
pub open spec fn first_branch(v: JsonView) -> Option<JsonView> {
    opt_child_of(opt_child_of(child_of(v, "git"@), "branches"@), "0"@)
}

/// The first branch that a value tells of.
fn branch_in(v: &Json) -> (r: Option<&Json>)
    ensures
        opt_json(r) == first_branch(v@),
{
    child_in(child_in(v.child("git"), "branches"), "0")
}

/// The repository of an agent: that of the first entry under `repos`, else that
/// of its first branch.
pub open spec fn repo_of(v: JsonView) -> Option<Seq<char>> {
    let listed = match member_array(v, "repos"@) {
        Some(repos) => if repos.len() > 0 {
            member_str(repos[0], "url"@)
        } else {
            None
        },
        None => None,
    };
    or_else(listed, opt_str_of(opt_child_of(first_branch(v), "repoUrl"@)))
}

/// The agent that a value describes; it needs an id.
pub open spec fn agent_of(v: JsonView) -> Option<AgentView> {
    match nonblank(member_str(v, "id"@)) {
        Some(id) => Some(
            AgentView {
                id,
                name: match nonblank(member_str(v, "name"@)) {
                    Some(n) => n,
                    None => "Cloud agent"@,
                },
                status: match member_str(v, "status"@) {
                    Some(s) => s,
                    None => "UNKNOWN"@,
                },
                url: match member_str(v, "url"@) {
                    Some(u) => u,
                    None => "https://cursor.com/agents/"@ + id,
                },
                repo_url: repo_of(v),
                updated_at: member_str(v, "updatedAt"@),
                latest_run_id: member_str(v, "latestRunId"@),
            },
        ),
        None => None,
    }
}

/// The repository of an agent.
fn repo_in(v: &Json) -> (r: Option<String>)
    ensures
        opt_text(r) == repo_of(v@),
{
    if let Some(repos) = v.get_array("repos") {
        assert(views(repos@).len() == repos@.len());
        if repos.len() > 0 {
            assert(views(repos@)[0] == repos@[0]@);
            if let Some(url) = repos[0].get_str("url") {
                return Some(url.to_owned());
            }
        }
    }
    text_in(child_in(branch_in(v), "repoUrl"))
}

/// The agent that a value describes.
pub fn parse_agent_summary(v: &Json) -> (r: Option<CloudAgentSummary>)
    ensures
        opt_agent(r) == agent_of(v@),
{
    let id = match trim_opt(v.get_str("id")) {
        Some(id) => id,
        None => return None,
    };
    let name = match trim_opt(v.get_str("name")) {
        Some(n) => n,
        None => "Cloud agent".to_owned(),
    };
    let status = match v.get_str("status") {
        Some(s) => s.to_owned(),
        None => "UNKNOWN".to_owned(),
    };
    let url = match v.get_str("url") {
        Some(u) => u.to_owned(),
        None => concat("https://cursor.com/agents/", id.as_str()),
    };
    Some(
        CloudAgentSummary {
            id,
            name,
            status,
            url,
            repo_url: repo_in(v),
            updated_at: own_opt(v.get_str("updatedAt")),
            latest_run_id: own_opt(v.get_str("latestRunId")),
        },
    )
}

/// The run that a value describes.
pub open spec fn run_of(v: JsonView) -> RunView {
    RunView {
        status: match member_str(v, "status"@) {
            Some(s) => s,
            None => "UNKNOWN"@,
        },
        result: member_str(v, "result"@),
        branch: opt_str_of(opt_child_of(first_branch(v), "branch"@)),
        pr_url: opt_str_of(opt_child_of(first_branch(v), "prUrl"@)),
    }
}

/// The run that a value describes.
pub fn parse_run_snapshot(v: &Json) -> (r: CloudRunSnapshot)
    ensures
        r@ == run_of(v@),
{
    let status = match v.get_str("status") {
        Some(s) => s.to_owned(),
        None => "UNKNOWN".to_owned(),
    };
    CloudRunSnapshot {
        status,
        result: own_opt(v.get_str("result")),
        branch: text_in(child_in(branch_in(v), "branch")),
        pr_url: text_in(child_in(branch_in(v), "prUrl")),
    }
}

/// The agents among the items of a list.
pub open spec fn agents_among(items: Seq<JsonView>) -> Seq<AgentView>
    decreases items.len(),
{
    if items.len() == 0 {
        Seq::empty()
    } else {
        let before = agents_among(items.drop_last());
        match agent_of(items.last()) {
            Some(a) => before.push(a),
            None => before,
        }
    }
}

/// The agents that a list reply describes.
pub open spec fn listed_agents(v: JsonView) -> Seq<AgentView> {
    match member_array(v, "items"@) {
        Some(items) => agents_among(items),
        None => Seq::empty(),
    }
}

/// The agents that a list reply describes, in its order.
pub fn agents_in(v: &Json) -> (r: Vec<CloudAgentSummary>)
    ensures
        agents_view(r@) == listed_agents(v@),
{
    let mut out: Vec<CloudAgentSummary> = Vec::new();
    assert(agents_view(out@) =~= Seq::empty());
    if let Some(items) = v.get_array("items") {
        let ghost all = views(items@);
        let mut i: usize = 0;
        while i < items.len()
            invariant
                i <= items@.len(),
                all == views(items@),
                agents_view(out@) == agents_among(all.take(i as int)),
            decreases items.len() - i,
        {
            let ghost before = agents_view(out@);
            proof {
                assert(all.take(i + 1).drop_last() =~= all.take(i as int));
                assert(all.take(i + 1).last() == items@[i as int]@);
            }
            if let Some(a) = parse_agent_summary(&items[i]) {
                out.push(a);
                assert(agents_view(out@) =~= before.push(a@));
            }
            i += 1;
        }
        assert(all.take(i as int) =~= all);
    }
    out
}

/// `limit`, but at least 1 and at most 100.
pub open spec fn page_size(limit: usize) -> nat {
    if limit < 1 {
        1
    } else if limit > 100 {
        100
    } else {
        limit as nat
    }
}

/// The address of the list of agents.
pub open spec fn list_url(limit: usize) -> Seq<char> {
    "https://api.cursor.com/v1/agents?limit="@ + decimal(page_size(limit))
        + "&includeArchived=false"@
}

/// The address of the list of agents.
fn make_list_url(limit: usize) -> (r: String)
    ensures
        r@ == list_url(limit),
{
    let n: u64 = if limit < 1 {
        1
    } else if limit > 100 {
        100
    } else {
        limit as u64
    };
    concat3(
        "https://api.cursor.com/v1/agents?limit=",
        to_decimal(n).as_str(),
        "&includeArchived=false",
    )
}

/// What to do next to list the agents.
pub enum ListStep {
    Ask(HttpRequest),
    Done(Result<Vec<CloudAgentSummary>, String>),
}

/// What a step holds.
pub enum ListView {
    Ask(RequestView),
    Done(Result<Seq<AgentView>, Seq<char>>),
}

impl View for ListStep {
    type V = ListView;

    open spec fn view(&self) -> ListView {
        match self {
            ListStep::Ask(r) => ListView::Ask(r@),
            ListStep::Done(Ok(v)) => ListView::Done(Ok(agents_view(v@))),
            ListStep::Done(Err(e)) => ListView::Done(Err(e@)),
        }
    }
}

/// The next step in listing the agents.
pub open spec fn list_next(
    api_key: Seq<char>,
    limit: usize,
    outcome: Option<Result<ReplyView, FailureView>>,
) -> ListView {
    match outcome {
        None => ListView::Ask(get_of(api_key, list_url(limit))),
        Some(o) => ListView::Done(
            match api_value("GET"@, list_url(limit), o) {
                Ok(v) => Ok(listed_agents(v)),
                Err(e) => Err(e),
            },
        ),
    }
}

/// The next step in listing the agents, newest first.
pub fn list_agents(
    api_key: &str,
    limit: usize,
    outcome: Option<&Result<HttpReply, ApiFailure>>,
) -> (r: ListStep)
    ensures
        r@ == list_next(api_key@, limit, opt_outcome(outcome)),
{
    let url = make_list_url(limit);
    match outcome {
        None => ListStep::Ask(api_get(api_key, url)),
        Some(o) => match read_api("GET", url.as_str(), o) {
            Ok(v) => ListStep::Done(Ok(agents_in(&v))),
            Err(e) => ListStep::Done(Err(e)),
        },
    }
}

/// The address of an agent.
pub open spec fn agent_url(bc_id: Seq<char>) -> Seq<char> {
    "https://api.cursor.com/v1/agents/"@ + bc_id
}

/// The address of a run of an agent.
pub open spec fn run_url(bc_id: Seq<char>, run_id: Seq<char>) -> Seq<char> {
    agent_url(bc_id) + "/runs/"@ + run_id
}

/// The agent, with its model, that a value describes.
pub open spec fn detail_of(v: JsonView) -> Option<DetailView> {
    match agent_of(v) {
        Some(summary) => Some(
            DetailView {
                summary,
                model: opt_str_of(
                    or_else(opt_child_of(child_of(v, "model"@), "id"@), member(v, "model"@)),
                ),
            },
        ),
        None => None,
    }
}

/// What is known of an optional agent with its model.
pub open spec fn opt_detail(d: Option<CloudAgentDetail>) -> Option<DetailView> {
    match d {
        Some(x) => Some(x@),
        None => None,
    }
}

/// The agent, with its model, that a value describes.
pub fn detail_in(v: &Json) -> (r: Option<CloudAgentDetail>)
    ensures
        opt_detail(r) == detail_of(v@),
{
    match parse_agent_summary(v) {
        Some(summary) => {
            let model = match child_in(v.child("model"), "id") {
                Some(m) => text_in(Some(m)),
                None => text_in(v.get("model")),
            };
            Some(CloudAgentDetail { summary, model })
        },
        None => None,
    }
}

/// What to do next to look at an agent.
pub enum PollStep {
    AskAgent(HttpRequest),
    AskRun(HttpRequest),
    Done(Result<(CloudAgentDetail, Option<CloudRunSnapshot>), String>),
}

/// What a step holds.
pub enum PollView {
    AskAgent(RequestView),
    AskRun(RequestView),
    Done(Result<(DetailView, Option<RunView>), Seq<char>>),
}

/// What is known of an optional run.
pub open spec fn opt_run_view(r: Option<CloudRunSnapshot>) -> Option<RunView> {
    match r {
        Some(x) => Some(x@),
        None => None,
    }
}

impl View for PollStep {
    type V = PollView;

    open spec fn view(&self) -> PollView {
        match self {
            PollStep::AskAgent(r) => PollView::AskAgent(r@),
            PollStep::AskRun(r) => PollView::AskRun(r@),
            PollStep::Done(Ok((d, run))) => PollView::Done(Ok((d@, opt_run_view(*run)))),
            PollStep::Done(Err(e)) => PollView::Done(Err(e@)),
        }
    }
}

/// The run in a reply; none where the request failed.
pub open spec fn run_found(url: Seq<char>, outcome: Result<ReplyView, FailureView>) -> Option<
    RunView,
> {
    match api_value("GET"@, url, outcome) {
        Ok(v) => Some(run_of(v)),
        Err(_) => None,
    }
}

/// The next step in looking at an agent: its record, and its latest run where
/// it has one. A run that cannot be had is left out.
pub open spec fn poll_next(
    api_key: Seq<char>,
    bc_id: Seq<char>,
    agent: Option<Result<ReplyView, FailureView>>,
    run: Option<Result<ReplyView, FailureView>>,
) -> PollView {
    match agent {
        None => PollView::AskAgent(get_of(api_key, agent_url(bc_id))),
        Some(a) => match api_value("GET"@, agent_url(bc_id), a) {
            Err(e) => PollView::Done(Err(e)),
            Ok(v) => match detail_of(v) {
                None => PollView::Done(Err("invalid agent payload for "@ + bc_id)),
                Some(d) => match d.summary.latest_run_id {
                    None => PollView::Done(Ok((d, None))),
                    Some(run_id) => match run {
                        None => PollView::AskRun(get_of(api_key, run_url(bc_id, run_id))),
                        Some(r) => PollView::Done(
                            Ok((d, run_found(run_url(bc_id, run_id), r))),
                        ),
                    },
                },
            },
        },
    }
}

/// The next step in looking at an agent, given the outcomes of asking for its
/// record and for its latest run.
pub fn poll_agent(
    api_key: &str,
    bc_id: &str,
    agent: Option<&Result<HttpReply, ApiFailure>>,
    run: Option<&Result<HttpReply, ApiFailure>>,
) -> (r: PollStep)
    ensures
        r@ == poll_next(api_key@, bc_id@, opt_outcome(agent), opt_outcome(run)),
{
    let url = concat("https://api.cursor.com/v1/agents/", bc_id);
    let outcome = match agent {
        None => return PollStep::AskAgent(api_get(api_key, url)),
        Some(a) => a,
    };
    let v = match read_api("GET", url.as_str(), outcome) {
        Ok(v) => v,
        Err(e) => return PollStep::Done(Err(e)),
    };
    let detail = match detail_in(&v) {
        Some(d) => d,
        None => return PollStep::Done(Err(concat("invalid agent payload for ", bc_id))),
    };
    let run_url = match &detail.summary.latest_run_id {
        None => return PollStep::Done(Ok((detail, None))),
        Some(run_id) => concat3(url.as_str(), "/runs/", run_id.as_str()),
    };
    match run {
        None => PollStep::AskRun(api_get(api_key, run_url)),
        Some(r) => match read_api("GET", run_url.as_str(), r) {
            Ok(v) => PollStep::Done(Ok((detail, Some(parse_run_snapshot(&v))))),
            Err(_) => PollStep::Done(Ok((detail, None))),
        },
    }
}

/// What a new agent is asked for.
pub struct NewAgent {
    pub repo_url: String,
    pub starting_ref: Option<String>,
    pub prompt: String,
    pub model: Option<String>,
    pub name: Option<String>,
}

/// What a request for a new agent holds.
pub struct NewAgentView {
    pub repo_url: Seq<char>,
    pub starting_ref: Option<Seq<char>>,
    pub prompt: Seq<char>,
    pub model: Option<Seq<char>>,
    pub name: Option<Seq<char>>,
}

impl View for NewAgent {
    type V = NewAgentView;

    open spec fn view(&self) -> NewAgentView {
        NewAgentView {
            repo_url: self.repo_url@,
            starting_ref: opt_text(self.starting_ref),
            prompt: self.prompt@,
            model: opt_text(self.model),
            name: opt_text(self.name),
        }
    }
}

/// One member of an object, where there is one.
pub open spec fn member_if(key: Seq<char>, v: Option<JsonView>) -> Seq<(Seq<char>, JsonView)> {
    match v {
        Some(w) => seq![(key, w)],
        None => Seq::empty(),
    }
}

/// The model that is asked for.
pub open spec fn model_member(n: NewAgentView) -> Option<JsonView> {
    match nonblank(n.model) {
        Some(m) => Some(JsonView::Object(seq![("id"@, JsonView::Str(m))])),
        None => None,
    }
}

/// The name that is asked for.
pub open spec fn name_member(n: NewAgentView) -> Option<JsonView> {
    match nonblank(n.name) {
        Some(m) => Some(JsonView::Str(shortened(m, 100))),
        None => None,
    }
}

/// The body of a request for a new agent in the repository at `address`.
pub open spec fn new_agent_body(n: NewAgentView, address: Seq<char>) -> JsonView {
    let start = match n.starting_ref {
        Some(s) => s,
        None => "main"@,
    };
    JsonView::Object(
        seq![("autoCreatePR"@, JsonView::Bool(false))] + member_if("model"@, model_member(n))
            + member_if("name"@, name_member(n)) + seq![
            ("prompt"@, JsonView::Object(seq![("text"@, JsonView::Str(trimmed(n.prompt)))])),
            (
                "repos"@,
                JsonView::Array(
                    seq![
                        JsonView::Object(
                            seq![
                                ("startingRef"@, JsonView::Str(start)),
                                ("url"@, JsonView::Str(address)),
                            ],
                        ),
                    ],
                ),
            ),
        ],
    )
}

/// What to do next to make an agent.
pub enum CreateStep {
    Ask(HttpRequest),
    Done(Result<CloudAgentSummary, String>),
}

/// What a step holds.
pub enum CreateView {
    Ask(RequestView),
    Done(Result<AgentView, Seq<char>>),
}

impl View for CreateStep {
    type V = CreateView;

    open spec fn view(&self) -> CreateView {
        match self {
            CreateStep::Ask(r) => CreateView::Ask(r@),
            CreateStep::Done(Ok(a)) => CreateView::Done(Ok(a@)),
            CreateStep::Done(Err(e)) => CreateView::Done(Err(e@)),
        }
    }
}

/// The agent that was made.
pub open spec fn made_agent(v: JsonView) -> Result<AgentView, Seq<char>> {
    let a = match member(v, "agent"@) {
        Some(w) => w,
        None => v,
    };
    match agent_of(a) {
        Some(agent) => Ok(agent),
        None => Err("create-agent returned unexpected payload"@),
    }
}

/// The next step in making an agent. It needs a prompt and a repository.
pub open spec fn create_next(
    api_key: Seq<char>,
    n: NewAgentView,
    outcome: Option<Result<ReplyView, FailureView>>,
) -> CreateView {
    let url = "https://api.cursor.com/v1/agents"@;
    if trimmed(n.prompt).len() == 0 {
        CreateView::Done(Err("prompt is required to start a cloud agent"@))
    } else {
        match repo_address(n.repo_url) {
            Err(e) => CreateView::Done(Err(e)),
            Ok(address) => match outcome {
                None => CreateView::Ask(post_of(api_key, url, new_agent_body(n, address))),
                Some(o) => CreateView::Done(
                    match api_value("POST"@, url, o) {
                        Ok(v) => made_agent(v),
                        Err(e) => Err(e),
                    },
                ),
            },
        }
    }
}

/// The agent that was made.
pub fn made_agent_in(v: &Json) -> (r: Result<CloudAgentSummary, String>)
    ensures
        match r {
            Ok(a) => made_agent(v@) == Ok::<AgentView, Seq<char>>(a@),
            Err(e) => made_agent(v@) == Err::<AgentView, Seq<char>>(e@),
        },
{
    let found = match v.get("agent") {
        Some(w) => parse_agent_summary(w),
        None => parse_agent_summary(v),
    };
    match found {
        Some(a) => Ok(a),
        None => Err("create-agent returned unexpected payload".to_owned()),
    }
}

/// An object with one text member.
fn one_text(key: &str, value: &str) -> (r: Json)
    ensures
        r@ == JsonView::Object(seq![(key@, JsonView::Str(value@))]),
{
    let mut members: Vec<(String, Json)> = Vec::new();
    members.push((key.to_owned(), Json::Str(value.to_owned())));
    let r = Json::Object(members);
    proof {
        reveal_with_fuel(json_view, 2);
        assert(r@->Object_0 =~= seq![(key@, JsonView::Str(value@))]);
    }
    r
}

/// The members of an object, by their contents.
spec fn members_view(v: Seq<(String, Json)>) -> Seq<(Seq<char>, JsonView)> {
    v.map_values(|m: (String, Json)| (m.0@, m.1@))
}

/// The object with the given members.
fn object(members: Vec<(String, Json)>) -> (r: Json)
    ensures
        r@ == JsonView::Object(members_view(members@)),
{
    let r = Json::Object(members);
    assert(r@->Object_0 =~= members_view(members@));
    r
}

/// The body of a request for a new agent.
fn make_body(n: &NewAgent, address: String) -> (r: Json)
    ensures
        r@ == new_agent_body(n@, address@),
{
    let start = match &n.starting_ref {
        Some(s) => s.clone(),
        None => "main".to_owned(),
    };
    let mut repo: Vec<(String, Json)> = Vec::new();
    repo.push(("startingRef".to_owned(), Json::Str(start)));
    repo.push(("url".to_owned(), Json::Str(address)));
    assert(members_view(repo@) =~= seq![
        ("startingRef"@, JsonView::Str(start@)),
        ("url"@, JsonView::Str(address@)),
    ]);
    let entry = object(repo);
    let mut list: Vec<Json> = Vec::new();
    list.push(entry);
    let repos = Json::Array(list);
    assert(repos@->Array_0 =~= seq![entry@]);
    let prompt = one_text("text", trim(n.prompt.as_str()));
    let mut members: Vec<(String, Json)> = Vec::new();
    members.push(("autoCreatePR".to_owned(), Json::Bool(false)));
    let ghost base = seq![("autoCreatePR"@, JsonView::Bool(false))];
    assert(members_view(members@) =~= base);
    if let Some(m) = &n.model {
        if let Some(id) = trim_opt(Some(m.as_str())) {
            members.push(("model".to_owned(), one_text("id", id.as_str())));
        }
    }
    assert(members_view(members@) =~= base + member_if("model"@, model_member(n@)));
    if let Some(m) = &n.name {
        if let Some(name) = trim_opt(Some(m.as_str())) {
            members.push(("name".to_owned(), Json::Str(shorten(name.as_str(), 100))));
        }
    }
    assert(members_view(members@) =~= base + member_if("model"@, model_member(n@)) + member_if(
        "name"@,
        name_member(n@),
    ));
    members.push(("prompt".to_owned(), prompt));
    members.push(("repos".to_owned(), repos));
    assert(members_view(members@) =~= base + member_if("model"@, model_member(n@)) + member_if(
        "name"@,
        name_member(n@),
    ) + seq![("prompt"@, prompt@), ("repos"@, repos@)]);
    object(members)
}

/// The next step in making an agent.
pub fn create_agent(
    api_key: &str,
    n: &NewAgent,
    outcome: Option<&Result<HttpReply, ApiFailure>>,
) -> (r: CreateStep)
    ensures
        r@ == create_next(api_key@, n@, opt_outcome(outcome)),
{
    if is_empty(trim(n.prompt.as_str())) {
        return CreateStep::Done(Err("prompt is required to start a cloud agent".to_owned()));
    }
    let address = match normalize_repo_url(n.repo_url.as_str()) {
        Ok(a) => a,
        Err(e) => return CreateStep::Done(Err(e)),
    };
    match outcome {
        None => {
            let body = make_body(n, address);
            CreateStep::Ask(api_post(api_key, "https://api.cursor.com/v1/agents", &body))
        },
        Some(o) => match read_api("POST", "https://api.cursor.com/v1/agents", o) {
            Ok(v) => CreateStep::Done(made_agent_in(&v)),
            Err(e) => CreateStep::Done(Err(e)),
        },
    }
}

/// The API key, given `CURSOR_API_KEY`.
pub open spec fn api_key_of(value: Option<Seq<char>>) -> Result<Seq<char>, Seq<char>> {
    match value {
        None => Err("CURSOR_API_KEY is not set (use Sign in or cursor.com/dashboard/api)"@),
        Some(k) => if trimmed(k).len() == 0 {
            Err("CURSOR_API_KEY is empty"@)
        } else {
            Ok(trimmed(k))
        },
    }
}

/// The API key, given `CURSOR_API_KEY`.
pub fn resolve_api_key(value: Option<&str>) -> (r: Result<String, String>)
    ensures
        crate::bao::result_text(r) == api_key_of(opt_view(value)),
{
    match value {
        None => Err(
            "CURSOR_API_KEY is not set (use Sign in or cursor.com/dashboard/api)".to_owned(),
        ),
        Some(k) => {
            let t = trim(k);
            if is_empty(t) {
                Err("CURSOR_API_KEY is empty".to_owned())
            } else {
                Ok(t.to_owned())
            }
        },
    }
}

/// Every agent that is listed has an id.
pub proof fn law_listed_agents_have_ids(items: Seq<JsonView>)
    ensures
        forall|i: int| 0 <= i < agents_among(items).len() ==> (#[trigger] agents_among(items)[i]).id.len() > 0,
    decreases items.len(),
{
    if items.len() > 0 {
        law_listed_agents_have_ids(items.drop_last());
    }
}

/// No list is asked for that is empty or has more than 100 agents.
pub proof fn law_page_size_in_range(limit: usize)
    ensures
        1 <= page_size(limit) <= 100,
        1 <= limit <= 100 ==> page_size(limit) == limit,
{
}

/// The path token `0` leads to the first item of an array.
proof fn lemma_first_item(items: Seq<JsonView>)
    ensures
        child_of(JsonView::Array(items), "0"@) == if items.len() > 0 {
            Some(items[0])
        } else {
            None
        },
{
    reveal_strlit("0");
    assert("0"@ =~= seq!['0']);
    let t = "0"@;
    reveal_with_fuel(crate::digits::dec_value, 2);
    assert(t.drop_last() =~= Seq::empty());
    assert(crate::digits::all_dec(t));
    assert(crate::digits::unsigned_value(t) == Some(0int));
}

/// The names of a branch's members, and of a run's, are told apart.
proof fn lemma_members_differ()
    ensures
        "branch"@ != "prUrl"@,
        "branch"@ != "repoUrl"@,
        "prUrl"@ != "repoUrl"@,
        "status"@ != "result"@,
{
    reveal_strlit("branch");
    reveal_strlit("prUrl");
    reveal_strlit("repoUrl");
    reveal_strlit("status");
    reveal_strlit("result");
    assert("branch"@.len() == 6 && "prUrl"@.len() == 5 && "repoUrl"@.len() == 7);
    assert("status"@[0] == 's' && "result"@[0] == 'r');
}

/// The first branch under the `git` member of an object, where there is one.
pub open spec fn listed_branch(v: JsonView) -> Option<JsonView> {
    match member(v, "git"@) {
        Some(git) => match member_array(git, "branches"@) {
            Some(branches) => if branches.len() > 0 && branches[0] is Object {
                Some(branches[0])
            } else {
                None
            },
            None => None,
        },
        None => None,
    }
}

/// A run's branch and pull request are those of the first branch under `git`: its
/// `branch` member is the branch, and its `prUrl` member the address of the pull
/// request. Its status and result are the members of these names.
pub proof fn law_run_tells_branch_and_pull_request(v: JsonView, branch: JsonView)
    requires
        listed_branch(v) == Some(branch),
    ensures
        run_of(v).branch == member_str(branch, "branch"@),
        run_of(v).pr_url == member_str(branch, "prUrl"@),
        run_of(v).result == member_str(v, "result"@),
        member_str(v, "status"@) is Some ==> run_of(v).status == member_str(v, "status"@)->0,
        member_str(v, "status"@) is None ==> run_of(v).status == "UNKNOWN"@,
{
    lemma_members_differ();
    let branches = member_array(member(v, "git"@)->0, "branches"@)->0;
    lemma_first_item(branches);
    assert(v is Object);
    assert(member(v, "git"@)->0 is Object);
}

/// A run without a `git` member, or with no branch in it, has neither a branch nor a
/// pull request; its status and result do not depend on that.
pub proof fn law_run_without_branch(v: JsonView)
    requires
        v is Object,
        member(v, "git"@) is None || member_array(member(v, "git"@)->0, "branches"@) == Some(
            Seq::<JsonView>::empty(),
        ),
    ensures
        run_of(v).branch is None,
        run_of(v).pr_url is None,
        run_of(v).result == member_str(v, "result"@),
        member_str(v, "status"@) is Some ==> run_of(v).status == member_str(v, "status"@)->0,
        member_str(v, "status"@) is None ==> run_of(v).status == "UNKNOWN"@,
{
    lemma_first_item(Seq::empty());
}

/// An agent needs an id; its other parts are the members of its record, with a name, a
/// status and an address of their own where the record has none.
pub proof fn law_agent_is_read(v: JsonView)
    ensures
        match member_str(v, "id"@) {
            Some(id) => if trimmed(id).len() > 0 {
                agent_of(v) matches Some(a) && is_record_of(a, v)
            } else {
                agent_of(v) is None
            },
            None => agent_of(v) is None,
        },
{
    if let Some(id) = member_str(v, "id"@) {
        if listed_branch(v) is Some {
            lemma_first_item(member_array(member(v, "git"@)->0, "branches"@)->0);
        }
        if trimmed(id).len() > 0 {
            assert(is_record_of(agent_of(v)->0, v));
        }
    }
}

/// Is the agent what the record says?
pub open spec fn is_record_of(a: AgentView, v: JsonView) -> bool {
    &&& member_str(v, "id"@) is Some && a.id == trimmed(member_str(v, "id"@)->0)
    &&& match member_str(v, "name"@) {
        Some(n) => a.name == if trimmed(n).len() > 0 {
            trimmed(n)
        } else {
            "Cloud agent"@
        },
        None => a.name == "Cloud agent"@,
    }
    &&& match member_str(v, "status"@) {
        Some(s) => a.status == s,
        None => a.status == "UNKNOWN"@,
    }
    &&& match member_str(v, "url"@) {
        Some(u) => a.url == u,
        None => a.url == "https://cursor.com/agents/"@ + a.id,
    }
    &&& a.updated_at == member_str(v, "updatedAt"@)
    &&& a.latest_run_id == member_str(v, "latestRunId"@)
    &&& match member_array(v, "repos"@) {
        Some(repos) => repos.len() > 0 && member_str(repos[0], "url"@) is Some ==> a.repo_url
            == member_str(repos[0], "url"@),
        None => match listed_branch(v) {
            Some(branch) => a.repo_url == member_str(branch, "repoUrl"@),
            None => true,
        },
    }
}

/// Every item of a list with an id is listed, in the order of the list, and no other.
pub proof fn law_agents_are_listed(v: JsonView, items: Seq<JsonView>)
    requires
        member_array(v, "items"@) == Some(items),
    ensures
        ({
            let named = items.filter(|i: JsonView| nonblank(member_str(i, "id"@)) is Some);
            &&& listed_agents(v).len() == named.len()
            &&& forall|k: int|
                0 <= k < named.len() ==> is_record_of(listed_agents(v)[k], #[trigger] named[k])
        }),
{
    lemma_agents_among(items);
}

/// The agents among the items, one by one.
proof fn lemma_agents_among(items: Seq<JsonView>)
    ensures
        ({
            let named = items.filter(|i: JsonView| nonblank(member_str(i, "id"@)) is Some);
            &&& agents_among(items).len() == named.len()
            &&& forall|k: int|
                0 <= k < named.len() ==> is_record_of(agents_among(items)[k], #[trigger] named[k])
        }),
    decreases items.len(),
{
    reveal(Seq::filter);
    let has_id = |i: JsonView| nonblank(member_str(i, "id"@)) is Some;
    if items.len() > 0 {
        let t = items.drop_last();
        let before = t.filter(has_id);
        let named = items.filter(has_id);
        lemma_agents_among(t);
        law_agent_is_read(items.last());
        assert forall|k: int| 0 <= k < named.len() implies is_record_of(
            agents_among(items)[k],
            #[trigger] named[k],
        ) by {
            if k < before.len() {
                assert(named[k] == before[k]);
                assert(agents_among(items)[k] == agents_among(t)[k]);
            }
        }
    }
}

/// Agents are asked for with the key as the user's name, at the address of the list,
/// of the agent or of its latest run.
pub proof fn law_requests_name_their_subject(
    api_key: Seq<char>,
    bc_id: Seq<char>,
    limit: usize,
    agent: ReplyView,
    v: JsonView,
    run_id: Seq<char>,
)
    requires
        200 <= agent.status < 300,
        json_parsed(agent.body) == Ok::<JsonView, Seq<char>>(v),
        nonblank(member_str(v, "id"@)) is Some,
        member_str(v, "latestRunId"@) == Some(run_id),
    ensures
        list_next(api_key, limit, None) matches ListView::Ask(request) && asks_for(
            request,
            api_key,
            "https://api.cursor.com/v1/agents?limit="@ + decimal(page_size(limit))
                + "&includeArchived=false"@,
        ),
        poll_next(api_key, bc_id, None, None) matches PollView::AskAgent(request) && asks_for(
            request,
            api_key,
            "https://api.cursor.com/v1/agents/"@ + bc_id,
        ),
        poll_next(api_key, bc_id, Some(Ok(agent)), None) matches PollView::AskRun(request)
            && asks_for(
            request,
            api_key,
            "https://api.cursor.com/v1/agents/"@ + bc_id + "/runs/"@ + run_id,
        ),
{
    assert(agent_of(v) is Some);
}

/// Does the request read what is at the address, with this key?
pub open spec fn asks_for(request: RequestView, api_key: Seq<char>, url: Seq<char>) -> bool {
    &&& request.method == Method::Get
    &&& request.url == url
    &&& request.basic_user == Some(api_key)
    &&& request.body is None
    &&& request.query.len() == 0
    &&& request.headers == seq![("Accept"@, "application/json"@)]
}

/// A poll ends with the agent's record, and with its latest run where it has one and the
/// run can be had. A run that cannot be had does not fail the poll.
pub proof fn law_poll_tells_agent_and_run(
    api_key: Seq<char>,
    bc_id: Seq<char>,
    agent: ReplyView,
    v: JsonView,
    run: Option<Result<ReplyView, FailureView>>,
)
    requires
        200 <= agent.status < 300,
        json_parsed(agent.body) == Ok::<JsonView, Seq<char>>(v),
        nonblank(member_str(v, "id"@)) is Some,
    ensures
        match (member_str(v, "latestRunId"@), run) {
            (None, _) => poll_next(api_key, bc_id, Some(Ok(agent)), run) matches PollView::Done(
                Ok((d, None)),
            ) && is_record_of(d.summary, v),
            (Some(_), None) => poll_next(api_key, bc_id, Some(Ok(agent)), run) is AskRun,
            (Some(_), Some(Err(_))) => poll_next(
                api_key,
                bc_id,
                Some(Ok(agent)),
                run,
            ) matches PollView::Done(Ok((d, None))) && is_record_of(d.summary, v),
            (Some(_), Some(Ok(reply))) => if 200 <= reply.status < 300 && json_parsed(
                reply.body,
            ) is Ok {
                poll_next(api_key, bc_id, Some(Ok(agent)), run) matches PollView::Done(
                    Ok((d, Some(r))),
                ) && is_record_of(d.summary, v) && r == run_of(json_parsed(reply.body)->Ok_0)
            } else {
                poll_next(api_key, bc_id, Some(Ok(agent)), run) matches PollView::Done(
                    Ok((d, None)),
                ) && is_record_of(d.summary, v)
            },
        },
{
    law_agent_is_read(v);
    assert(agent_of(v) is Some);
    assert(is_record_of(agent_of(v)->0, v));
}

/// An agent's model is the `id` of its `model` member, or that member itself where it is
/// a text.
pub proof fn law_model_is_read(v: JsonView)
    requires
        nonblank(member_str(v, "id"@)) is Some,
    ensures
        member_str(v, "model"@) is Some ==> detail_of(v)->0.model == member_str(v, "model"@),
        member(v, "model"@) is None ==> detail_of(v)->0.model is None,
        member(v, "model"@) matches Some(m) ==> m is Object && member_str(m, "id"@) is Some
            ==> detail_of(v)->0.model == member_str(m, "id"@),
        detail_of(v) is Some && detail_of(v)->0.summary == agent_of(v)->0,
{
    assert(v is Object);
}

/// A reply is read only where the request succeeded and the reply is JSON; else the
/// error tells what went wrong. A refusal is told by its status and its message.
pub proof fn law_refused_requests_fail(
    verb: Seq<char>,
    url: Seq<char>,
    r: ReplyView,
    e: Seq<char>,
)
    ensures
        api_value(verb, url, Ok(r)) is Ok <==> 200 <= r.status < 300 && json_parsed(r.body) is Ok,
        api_value(verb, url, Ok(r)) is Ok ==> api_value(verb, url, Ok(r)) == json_parsed(r.body),
        api_value(verb, url, Err(FailureView::Send(e))) == Err::<JsonView, Seq<char>>(
            verb + " "@ + url + " failed: "@ + e,
        ),
        api_value(verb, url, Err(FailureView::Setup(e))) == Err::<JsonView, Seq<char>>(
            "HTTP client setup failed: "@ + e,
        ),
        api_value(verb, url, Err(FailureView::Read(e))) == Err::<JsonView, Seq<char>>(
            "read response body: "@ + e,
        ),
        !(200 <= r.status < 300) && json_parsed(r.body) is Ok && member_str(
            json_parsed(r.body)->Ok_0,
            "message"@,
        ) is Some && trimmed(member_str(json_parsed(r.body)->Ok_0, "message"@)->0).len() > 0
            ==> api_value(verb, url, Ok(r)) == Err::<JsonView, Seq<char>>(
            "HTTP "@ + decimal(r.status as nat) + ": "@ + trimmed(
                member_str(json_parsed(r.body)->Ok_0, "message"@)->0,
            ),
        ),
        !(200 <= r.status < 300) && json_parsed(r.body) is Ok && member(
            json_parsed(r.body)->Ok_0,
            "message"@,
        ) is None && member_str(json_parsed(r.body)->Ok_0, "error"@) is Some && trimmed(
            member_str(json_parsed(r.body)->Ok_0, "error"@)->0,
        ).len() > 0 ==> api_value(verb, url, Ok(r)) == Err::<JsonView, Seq<char>>(
            "HTTP "@ + decimal(r.status as nat) + ": "@ + trimmed(
                member_str(json_parsed(r.body)->Ok_0, "error"@)->0,
            ),
        ),
        !(200 <= r.status < 300) && json_parsed(r.body) is Err && trimmed(r.body).len() > 0
            ==> api_value(verb, url, Ok(r)) == Err::<JsonView, Seq<char>>(
            "HTTP "@ + decimal(r.status as nat) + ": "@ + trimmed(r.body),
        ),
        !(200 <= r.status < 300) && json_parsed(r.body) is Err && trimmed(r.body).len() == 0
            ==> api_value(verb, url, Ok(r)) == Err::<JsonView, Seq<char>>(
            "HTTP "@ + decimal(r.status as nat),
        ),
{
}

/// What is asked of a new agent stands in the request's body under its own name: the
/// prompt, the repository with the branch to start from, and the model and the name
/// where they are asked for. No pull request is made by itself.
pub proof fn law_new_agent_is_asked_for(api_key: Seq<char>, n: NewAgentView, address: Seq<char>)
    requires
        trimmed(n.prompt).len() > 0,
        repo_address(n.repo_url) == Ok::<Seq<char>, Seq<char>>(address),
    ensures
        create_next(api_key, n, None) matches CreateView::Ask(request) && request.method
            == Method::Post && request.url == "https://api.cursor.com/v1/agents"@
            && request.basic_user == Some(api_key) && exists|sent: JsonView|
            request.body == Some(#[trigger] rendered(sent)) && says_what_is_asked(sent, n, address),
{
    let sent = new_agent_body(n, address);
    reveal_strlit("autoCreatePR");
    reveal_strlit("model");
    reveal_strlit("name");
    reveal_strlit("prompt");
    reveal_strlit("repos");
    reveal_strlit("startingRef");
    reveal_strlit("url");
    reveal_strlit("text");
    reveal_strlit("id");
    assert("autoCreatePR"@.len() == 12 && "model"@.len() == 5 && "name"@.len() == 4
        && "prompt"@.len() == 6 && "repos"@.len() == 5 && "startingRef"@.len() == 11);
    assert("model"@[0] == 'm' && "repos"@[0] == 'r');
    let a = seq![("autoCreatePR"@, JsonView::Bool(false))];
    let b = member_if("model"@, model_member(n));
    let c = member_if("name"@, name_member(n));
    let members = sent->Object_0;
    let p = JsonView::Object(seq![("text"@, JsonView::Str(trimmed(n.prompt)))]);
    let d = members.skip((1 + b.len() + c.len()) as int);
    assert(d[0] == ("prompt"@, p));
    let repos = d[1].1;
    assert(d[1].0 == "repos"@);
    let start = match n.starting_ref {
        Some(s) => s,
        None => "main"@,
    };
    let entry = JsonView::Object(
        seq![("startingRef"@, JsonView::Str(start)), ("url"@, JsonView::Str(address))],
    );
    assert(repos == JsonView::Array(seq![entry]));
    assert(members[0] == ("autoCreatePR"@, JsonView::Bool(false)));
    lemma_entry_at(members, 0);
    if b.len() > 0 {
        assert(members[1] == b[0]);
        lemma_entry_at(members, 1);
    }
    if c.len() > 0 {
        assert(members[(1 + b.len()) as int] == c[0]);
        lemma_entry_at(members, (1 + b.len()) as int);
    }
    let k = (1 + b.len() + c.len()) as int;
    assert(members[k] == d[0] && members[k + 1] == d[1]);
    assert forall|i: int| 0 <= i < members.len() && i != k implies #[trigger] members[i].0
        != "prompt"@ by {}
    lemma_entry_at(members, k);
    lemma_entry_at(members, k + 1);
    if b.len() == 0 {
        lemma_entry_none(members, "model"@);
    }
    if c.len() == 0 {
        lemma_entry_none(members, "name"@);
    }
    let e = entry->Object_0;
    lemma_entry_at(e, 0);
    lemma_entry_at(e, 1);
    lemma_entry_at(p->Object_0, 0);
    if nonblank(n.model) is Some {
        lemma_entry_at(seq![("id"@, JsonView::Str(nonblank(n.model)->0))], 0);
    }
    assert(says_what_is_asked(sent, n, address));
}

/// Does the object say what is asked of a new agent?
pub open spec fn says_what_is_asked(sent: JsonView, n: NewAgentView, address: Seq<char>) -> bool {
    &&& member(sent, "autoCreatePR"@) == Some(JsonView::Bool(false))
    &&& member(sent, "prompt"@) is Some && member_str(member(sent, "prompt"@)->0, "text"@) == Some(
        trimmed(n.prompt),
    )
    &&& member_array(sent, "repos"@) is Some && member_array(sent, "repos"@)->0.len() == 1
    &&& member_str(member_array(sent, "repos"@)->0[0], "url"@) == Some(address)
    &&& member_str(member_array(sent, "repos"@)->0[0], "startingRef"@) == Some(
        match n.starting_ref {
            Some(s) => s,
            None => "main"@,
        },
    )
    &&& match nonblank(n.model) {
        Some(m) => member(sent, "model"@) is Some && member_str(
            member(sent, "model"@)->0,
            "id"@,
        ) == Some(m),
        None => member(sent, "model"@) is None,
    }
    &&& match nonblank(n.name) {
        Some(m) => member_str(sent, "name"@) == Some(shortened(m, 100)),
        None => member(sent, "name"@) is None,
    }
}

/// The member that no earlier one has the name of.
proof fn lemma_entry_at(members: Seq<(Seq<char>, JsonView)>, k: int)
    requires
        0 <= k < members.len(),
        forall|i: int| 0 <= i < k ==> (#[trigger] members[i]).0 != members[k].0,
    ensures
        crate::json::entry(members, members[k].0) == Some(members[k].1),
    decreases members.len(),
{
    if k > 0 {
        let t = members.drop_first();
        assert(members[0].0 != members[k].0);
        assert forall|i: int| 0 <= i < k - 1 implies (#[trigger] t[i]).0 != t[k - 1].0 by {
            assert(members[i + 1].0 != members[k].0);
        }
        lemma_entry_at(t, k - 1);
        assert(t[k - 1] == members[k]);
    }
}

/// A name that no member has.
proof fn lemma_entry_none(members: Seq<(Seq<char>, JsonView)>, key: Seq<char>)
    requires
        forall|i: int| 0 <= i < members.len() ==> (#[trigger] members[i]).0 != key,
    ensures
        crate::json::entry(members, key) is None,
    decreases members.len(),
{
    if members.len() > 0 {
        let t = members.drop_first();
        assert(members[0].0 != key);
        assert forall|i: int| 0 <= i < t.len() implies (#[trigger] t[i]).0 != key by {
            assert(members[i + 1].0 != key);
        }
        lemma_entry_none(t, key);
    }
}

/// The agent that was made is the one that the reply describes, under `agent` or by
/// itself; without a prompt or a repository none is asked for.
pub proof fn law_made_agent_is_read(
    api_key: Seq<char>,
    n: NewAgentView,
    reply: ReplyView,
    v: JsonView,
)
    requires
        200 <= reply.status < 300,
        json_parsed(reply.body) == Ok::<JsonView, Seq<char>>(v),
    ensures
        trimmed(n.prompt).len() == 0 ==> create_next(api_key, n, None) == CreateView::Done(
            Err("prompt is required to start a cloud agent"@),
        ),
        trimmed(n.prompt).len() > 0 && trimmed(n.repo_url).len() == 0 ==> create_next(
            api_key,
            n,
            None,
        ) == CreateView::Done(Err("repository URL is required"@)),
        trimmed(n.prompt).len() > 0 && repo_address(n.repo_url) is Ok ==> ({
            let record = if member(v, "agent"@) is Some {
                member(v, "agent"@)->0
            } else {
                v
            };
            if nonblank(member_str(record, "id"@)) is Some {
                create_next(api_key, n, Some(Ok(reply))) matches CreateView::Done(Ok(a))
                    && is_record_of(a, record)
            } else {
                create_next(api_key, n, Some(Ok(reply))) == CreateView::Done(
                    Err("create-agent returned unexpected payload"@),
                )
            }
        }),
{
    let record = if member(v, "agent"@) is Some {
        member(v, "agent"@)->0
    } else {
        v
    };
    law_agent_is_read(record);
}

/// The key is what `CURSOR_API_KEY` holds, without the white space around it; where it is not
/// set, or blank, there is none, and the error says which.
pub proof fn law_api_key_is_needed(k: Seq<char>)
    ensures
        api_key_of(None) == Err::<Seq<char>, Seq<char>>(
            "CURSOR_API_KEY is not set (use Sign in or cursor.com/dashboard/api)"@,
        ),
        trimmed(k).len() == 0 ==> api_key_of(Some(k)) == Err::<Seq<char>, Seq<char>>(
            "CURSOR_API_KEY is empty"@,
        ),
        trimmed(k).len() > 0 ==> api_key_of(Some(k)) == Ok::<Seq<char>, Seq<char>>(trimmed(k)),
{
}

} // verus!
