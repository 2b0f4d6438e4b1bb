//! Cloud agents: requests to their API, what its replies tell, and tabs that
//! watch an agent without a local terminal.
use crate::letters::{ascii_lower, ascii_upper, to_ascii_lower, to_ascii_upper};
use crate::split::{shorten, shortened};
use crate::text::{
    concat, copy_opt, ends, ends_with, is_empty, opt_text, opt_view, or_else, str_eq, trim, trimmed,
};
use vstd::prelude::*;
use vstd::string::*;

verus! {

/// A cloud agent, as the API lists it.
#[derive(Debug, Clone)]
pub struct CloudAgentSummary {
    pub id: String,
    pub name: String,
    pub status: String,
    pub url: String,
    pub repo_url: Option<String>,
    pub updated_at: Option<String>,
    pub latest_run_id: Option<String>,
}

/// What is known of a cloud agent.
pub struct AgentView {
    pub id: Seq<char>,
    pub name: Seq<char>,
    pub status: Seq<char>,
    pub url: Seq<char>,
    pub repo_url: Option<Seq<char>>,
    pub updated_at: Option<Seq<char>>,
    pub latest_run_id: Option<Seq<char>>,
}

impl View for CloudAgentSummary {
    type V = AgentView;

    open spec fn view(&self) -> AgentView {
        AgentView {
            id: self.id@,
            name: self.name@,
            status: self.status@,
            url: self.url@,
            repo_url: opt_text(self.repo_url),
            updated_at: opt_text(self.updated_at),
            latest_run_id: opt_text(self.latest_run_id),
        }
    }
}

/// What is known of an optional agent.
pub open spec fn opt_agent(a: Option<CloudAgentSummary>) -> Option<AgentView> {
    match a {
        Some(x) => Some(x@),
        None => None,
    }
}

/// What is known of the agents of a list.
pub open spec fn agents_view(v: Seq<CloudAgentSummary>) -> Seq<AgentView> {
    v.map_values(|a: CloudAgentSummary| a@)
}

/// A cloud agent with its model.
#[derive(Debug, Clone)]
pub struct CloudAgentDetail {
    pub summary: CloudAgentSummary,
    pub model: Option<String>,
}

/// What is known of an agent with its model.
pub struct DetailView {
    pub summary: AgentView,
    pub model: Option<Seq<char>>,
}

impl View for CloudAgentDetail {
    type V = DetailView;

    open spec fn view(&self) -> DetailView {
        DetailView { summary: self.summary@, model: opt_text(self.model) }
    }
}

/// A run of a cloud agent.
#[derive(Debug, Clone)]
pub struct CloudRunSnapshot {
    pub status: String,
    pub result: Option<String>,
    pub branch: Option<String>,
    pub pr_url: Option<String>,
}

/// What is known of a run.
pub struct RunView {
    pub status: Seq<char>,
    pub result: Option<Seq<char>>,
    pub branch: Option<Seq<char>>,
    pub pr_url: Option<Seq<char>>,
}

impl View for CloudRunSnapshot {
    type V = RunView;

    open spec fn view(&self) -> RunView {
        RunView {
            status: self.status@,
            result: opt_text(self.result),
            branch: opt_text(self.branch),
            pr_url: opt_text(self.pr_url),
        }
    }
}

impl Default for CloudRunSnapshot {
    fn default() -> (r: CloudRunSnapshot)
        ensures
            r@ == (RunView { status: ""@, result: None, branch: None, pr_url: None }),
    {
        CloudRunSnapshot { status: "".to_owned(), result: None, branch: None, pr_url: None }
    }
}

/// What is known of an optional run.
pub open spec fn opt_run(r: Option<&CloudRunSnapshot>) -> Option<RunView> {
    match r {
        Some(x) => Some(x@),
        None => None,
    }
}

/// Does an agent's status say that it is at work?
pub open spec fn live_agent(status: Seq<char>) -> bool {
    let s = ascii_upper(status);
    s == "ACTIVE"@ || s == "RUNNING"@ || s == "CREATING"@
}

/// Does a run's status say that it goes on?
pub open spec fn live_run(status: Seq<char>) -> bool {
    let s = ascii_upper(status);
    s == "CREATING"@ || s == "RUNNING"@ || s == "PENDING"@
}

/// Does a run's status say that it is over?
pub open spec fn over_run(status: Seq<char>) -> bool {
    let s = ascii_upper(status);
    s == "FINISHED"@ || s == "ERROR"@ || s == "CANCELLED"@ || s == "EXPIRED"@ || s == "FAILED"@
}

/// Does the status of a run, where there is one, say that it goes on?
pub open spec fn some_live_run(status: Option<Seq<char>>) -> bool {
    status matches Some(s) && live_run(s)
}

/// Does the status of a run, where there is one, say that it is over?
pub open spec fn some_over_run(status: Option<Seq<char>>) -> bool {
    status matches Some(s) && over_run(s)
}

/// Does an agent's status say that it is at work?
pub fn is_live_agent_status(status: &str) -> (r: bool)
    ensures
        r == live_agent(status@),
{
    let s = to_ascii_upper(status);
    str_eq(s.as_str(), "ACTIVE") || str_eq(s.as_str(), "RUNNING") || str_eq(s.as_str(), "CREATING")
}

/// Does a run's status say that it goes on?
pub fn is_live_run_status(status: &str) -> (r: bool)
    ensures
        r == live_run(status@),
{
    let s = to_ascii_upper(status);
    str_eq(s.as_str(), "CREATING") || str_eq(s.as_str(), "RUNNING") || str_eq(s.as_str(), "PENDING")
}

/// Does the status of a run, where there is one, say that it is over?
pub fn is_terminal_run(status: Option<&str>) -> (r: bool)
    ensures
        r == some_over_run(opt_view(status)),
{
    match status {
        Some(x) => {
            let s = to_ascii_upper(x);
            str_eq(s.as_str(), "FINISHED") || str_eq(s.as_str(), "ERROR") || str_eq(
                s.as_str(),
                "CANCELLED",
            ) || str_eq(s.as_str(), "EXPIRED") || str_eq(s.as_str(), "FAILED")
        },
        None => false,
    }
}

/// What an agent does, in a few words.
pub open spec fn label_of(agent: Seq<char>, run: Option<Seq<char>>) -> Option<Seq<char>> {
    if some_live_run(run) {
        Some("Run · "@ + ascii_lower(run->0))
    } else if live_agent(agent) {
        Some("Cloud agent running…"@)
    } else if some_over_run(run) {
        Some("Finished"@)
    } else if ascii_upper(agent) == "ARCHIVED"@ {
        Some("Archived"@)
    } else {
        None
    }
}

/// What an agent does, in a few words, given its status and that of its run.
pub fn activity_label(agent_status: &str, run_status: Option<&str>) -> (r: Option<String>)
    ensures
        opt_text(r) == label_of(agent_status@, opt_view(run_status)),
{
    if let Some(run) = run_status {
        if is_live_run_status(run) {
            return Some(concat("Run · ", to_ascii_lower(run).as_str()));
        }
    }
    if is_live_agent_status(agent_status) {
        return Some("Cloud agent running…".to_owned());
    }
    if is_terminal_run(run_status) {
        return Some("Finished".to_owned());
    }
    if str_eq(to_ascii_upper(agent_status).as_str(), "ARCHIVED") {
        Some("Archived".to_owned())
    } else {
        None
    }
}

/// No status says both that a run goes on and that it is over.
pub proof fn law_run_is_live_or_over(status: Seq<char>)
    ensures
        !(live_run(status) && over_run(status)),
{
    reveal_strlit("CREATING");
    reveal_strlit("RUNNING");
    reveal_strlit("PENDING");
    reveal_strlit("FINISHED");
    reveal_strlit("ERROR");
    reveal_strlit("CANCELLED");
    reveal_strlit("EXPIRED");
    reveal_strlit("FAILED");
    let s = ascii_upper(status);
    if live_run(status) {
        assert(s[0] == 'C' || s[0] == 'R' || s[0] == 'P');
        assert(s.len() == 8 || s.len() == 7);
    }
}

/// A tab that watches a cloud agent.
#[derive(Debug, Clone)]
pub struct CloudWatch {
    pub id: u64,
    pub title: String,
    pub bc_id: String,
    pub url: String,
    /// The local directory under which the tab is listed.
    pub workspace: String,
    pub repo_url: Option<String>,
    pub agent_status: String,
    pub run_status: Option<String>,
    pub activity: Option<String>,
    pub summary: Option<String>,
    pub branch: Option<String>,
    pub pr_url: Option<String>,
    /// Has the user named the tab?
    pub title_locked: bool,
}

/// What a watching tab holds.
pub struct WatchView {
    pub id: u64,
    pub title: Seq<char>,
    pub bc_id: Seq<char>,
    pub url: Seq<char>,
    pub workspace: Seq<char>,
    pub repo_url: Option<Seq<char>>,
    pub agent_status: Seq<char>,
    pub run_status: Option<Seq<char>>,
    pub activity: Option<Seq<char>>,
    pub summary: Option<Seq<char>>,
    pub branch: Option<Seq<char>>,
    pub pr_url: Option<Seq<char>>,
    pub title_locked: bool,
}

impl View for CloudWatch {
    type V = WatchView;

    open spec fn view(&self) -> WatchView {
        WatchView {
            id: self.id,
            title: self.title@,
            bc_id: self.bc_id@,
            url: self.url@,
            workspace: self.workspace@,
            repo_url: opt_text(self.repo_url),
            agent_status: self.agent_status@,
            run_status: opt_text(self.run_status),
            activity: opt_text(self.activity),
            summary: opt_text(self.summary),
            branch: opt_text(self.branch),
            pr_url: opt_text(self.pr_url),
            title_locked: self.title_locked,
        }
    }
}

/// Is the watched agent, or its run, at work?
pub open spec fn watch_alive(w: WatchView) -> bool {
    live_agent(w.agent_status) || some_live_run(w.run_status)
}

/// A new tab for an agent.
pub open spec fn new_watch(id: u64, a: AgentView, workspace: Seq<char>) -> WatchView {
    WatchView {
        id,
        title: a.name,
        bc_id: a.id,
        url: a.url,
        workspace,
        repo_url: a.repo_url,
        agent_status: a.status,
        run_status: None,
        activity: label_of(a.status, None),
        summary: None,
        branch: None,
        pr_url: None,
        title_locked: false,
    }
}

/// A title that says that the agent is finished.
pub open spec fn finished_title(title: Seq<char>) -> Seq<char> {
    if ends(title, " (finished)"@) {
        title
    } else {
        title + " (finished)"@
    }
}

/// A tab after what was learned of the agent's run.
pub open spec fn with_run(w: WatchView, run: Option<RunView>) -> WatchView {
    match run {
        Some(r) => WatchView {
            run_status: Some(r.status),
            branch: r.branch,
            pr_url: r.pr_url,
            summary: match r.result {
                Some(result) => if trimmed(result).len() > 0 {
                    Some(shortened(result, 800))
                } else {
                    w.summary
                },
                None => w.summary,
            },
            ..w
        },
        None => w,
    }
}

/// A tab after what was learned of its agent.
pub open spec fn polled(before: WatchView, detail: DetailView, run: Option<RunView>) -> WatchView {
    let seen = WatchView {
        agent_status: detail.summary.status,
        repo_url: or_else(detail.summary.repo_url, before.repo_url),
        ..before
    };
    let w = with_run(seen, run);
    WatchView {
        activity: label_of(w.agent_status, w.run_status),
        title: if w.title_locked {
            w.title
        } else if !watch_alive(w) && some_over_run(w.run_status) {
            finished_title(detail.summary.name)
        } else {
            detail.summary.name
        },
        ..w
    }
}

/// A tab after the user named it. A blank name is not taken.
pub open spec fn renamed(w: WatchView, title: Seq<char>) -> WatchView {
    let t = trimmed(title);
    if t.len() == 0 {
        w
    } else {
        WatchView {
            title: if watch_alive(w) {
                t
            } else {
                finished_title(t)
            },
            title_locked: true,
            ..w
        }
    }
}

impl CloudWatch {
    /// A new tab for an agent.
    pub fn new(id: u64, summary: CloudAgentSummary, workspace: String) -> (r: CloudWatch)
        ensures
            r@ == new_watch(id, summary@, workspace@),
    {
        let activity = activity_label(summary.status.as_str(), None);
        CloudWatch {
            id,
            title: summary.name,
            bc_id: summary.id,
            url: summary.url,
            workspace,
            repo_url: summary.repo_url,
            agent_status: summary.status,
            run_status: None,
            activity,
            summary: None,
            branch: None,
            pr_url: None,
            title_locked: false,
        }
    }

    /// Is the watched agent, or its run, at work?
    pub fn alive(&self) -> (r: bool)
        ensures
            r == watch_alive(self@),
    {
        is_live_agent_status(self.agent_status.as_str()) || match &self.run_status {
            Some(s) => is_live_run_status(s.as_str()),
            None => false,
        }
    }

    /// Is there something going on to show?
    pub fn has_activity(&self) -> (r: bool)
        ensures
            r == watch_alive(self@),
    {
        self.alive()
    }

    /// The status of the run, where there is one.
    fn run_text(&self) -> (r: Option<&str>)
        ensures
            opt_view(r) == self@.run_status,
    {
        match &self.run_status {
            Some(s) => Some(s.as_str()),
            None => None,
        }
    }

    /// Takes in what was learned of the agent's run.
    fn take_run(&mut self, run: Option<&CloudRunSnapshot>)
        ensures
            final(self)@ == with_run(old(self)@, opt_run(run)),
    {
        if let Some(run) = run {
            self.run_status = Some(run.status.clone());
            self.branch = copy_opt(&run.branch);
            self.pr_url = copy_opt(&run.pr_url);
            if let Some(result) = &run.result {
                if !is_empty(trim(result.as_str())) {
                    self.summary = Some(shorten(result.as_str(), 800));
                }
            }
        }
    }

    /// Takes in what was learned of the agent and its run.
    pub fn apply_poll(&mut self, detail: &CloudAgentDetail, run: Option<&CloudRunSnapshot>)
        ensures
            final(self)@ == polled(old(self)@, detail@, opt_run(run)),
    {
        self.agent_status = detail.summary.status.clone();
        if let Some(repo) = &detail.summary.repo_url {
            self.repo_url = Some(repo.clone());
        }
        self.take_run(run);
        let activity = activity_label(self.agent_status.as_str(), self.run_text());
        self.activity = activity;
        if !self.title_locked {
            let mut title = detail.summary.name.clone();
            if !self.alive() && !ends_with(title.as_str(), " (finished)") {
                if is_terminal_run(self.run_text()) {
                    title.append(" (finished)");
                }
            }
            self.title = title;
        }
    }

    /// Names the tab.
    pub fn set_user_title(&mut self, title: &str)
        ensures
            final(self)@ == renamed(old(self)@, title@),
    {
        let t = trim(title);
        if is_empty(t) {
            return;
        }
        let mut title = t.to_owned();
        if !self.alive() && !ends_with(title.as_str(), " (finished)") {
            title.append(" (finished)");
        }
        self.title = title;
        self.title_locked = true;
    }
}

/// A name that the user gave stays, whatever is learned of the agent.
pub proof fn law_poll_keeps_user_title(
    w: WatchView,
    title: Seq<char>,
    detail: DetailView,
    run: Option<RunView>,
)
    requires
        trimmed(title).len() > 0,
    ensures
        polled(renamed(w, title), detail, run).title == renamed(w, title).title,
        polled(renamed(w, title), detail, run).title_locked,
{
}

/// After every poll the tab says what the agent does, where it is at work.
pub proof fn law_live_watch_says_what_it_does(w: WatchView, detail: DetailView, run: Option<RunView>)
    requires
        watch_alive(polled(w, detail, run)),
    ensures
        polled(w, detail, run).activity is Some,
{
}

/// Polling twice with the same news changes nothing more.
pub proof fn law_poll_is_idempotent(w: WatchView, detail: DetailView, run: Option<RunView>)
    ensures
        polled(polled(w, detail, run), detail, run) == polled(w, detail, run),
{
}

/// A poll takes in the agent's status and repository, and of its run the status, the
/// branch, the pull request and the result. What it does not speak of stays.
pub proof fn law_poll_takes_in_news(w: WatchView, detail: DetailView, run: Option<RunView>)
    ensures
        ({
            let q = polled(w, detail, run);
            &&& q.id == w.id && q.bc_id == w.bc_id && q.url == w.url && q.workspace == w.workspace
            &&& q.title_locked == w.title_locked
            &&& q.agent_status == detail.summary.status
            &&& detail.summary.repo_url is Some ==> q.repo_url == detail.summary.repo_url
            &&& detail.summary.repo_url is None ==> q.repo_url == w.repo_url
            &&& match run {
                Some(r) => {
                    &&& q.run_status == Some(r.status)
                    &&& q.branch == r.branch
                    &&& q.pr_url == r.pr_url
                    &&& match r.result {
                        Some(t) => if trimmed(t).len() == 0 {
                            q.summary == w.summary
                        } else {
                            q.summary == Some(shortened(t, 800))
                        },
                        None => q.summary == w.summary,
                    }
                },
                None => q.run_status == w.run_status && q.branch == w.branch && q.pr_url
                    == w.pr_url && q.summary == w.summary,
            }
        }),
{
}

/// A tab that the user has not named is named like its agent; once the agent is not at
/// work and its run is over, the name says that it is finished, once.
pub proof fn law_poll_names_tab(w: WatchView, detail: DetailView, run: Option<RunView>)
    requires
        !w.title_locked,
    ensures
        ({
            let q = polled(w, detail, run);
            let name = detail.summary.name;
            let over = q.run_status is Some && over_run(q.run_status->0) && !live_agent(
                q.agent_status,
            );
            &&& !over ==> q.title == name
            &&& over && ends(name, " (finished)"@) ==> q.title == name
            &&& over && !ends(name, " (finished)"@) ==> q.title == name + " (finished)"@
        }),
{
    let q = polled(w, detail, run);
    if q.run_status is Some && over_run(q.run_status->0) {
        law_run_is_live_or_over(q.run_status->0);
    }
}

/// What an agent does: a run that goes on is told by its status, before the agent's own;
/// then an agent at work, a run that is over and an agent that was put away are told.
pub proof fn law_label_tells_what_goes_on(agent: Seq<char>, run: Option<Seq<char>>)
    ensures
        ({
            let a = ascii_upper(agent);
            let r = ascii_upper(run->0);
            let going = run is Some && (r == "CREATING"@ || r == "RUNNING"@ || r == "PENDING"@);
            let over = run is Some && (r == "FINISHED"@ || r == "ERROR"@ || r == "CANCELLED"@ || r
                == "EXPIRED"@ || r == "FAILED"@);
            let live = a == "ACTIVE"@ || a == "RUNNING"@ || a == "CREATING"@;
            &&& going ==> label_of(agent, run) == Some("Run · "@ + ascii_lower(run->0))
            &&& !going && live ==> label_of(agent, run) == Some("Cloud agent running…"@)
            &&& !going && !live && over ==> label_of(agent, run) == Some("Finished"@)
            &&& !going && !live && !over && a == "ARCHIVED"@ ==> label_of(agent, run) == Some(
                "Archived"@,
            )
            &&& !going && !live && !over && a != "ARCHIVED"@ ==> label_of(agent, run) is None
        }),
{
}

/// A new tab shows the agent as it is listed, with no run yet.
pub proof fn law_new_watch_shows_agent(id: u64, a: AgentView, workspace: Seq<char>)
    ensures
        ({
            let w = new_watch(id, a, workspace);
            &&& w.id == id && w.bc_id == a.id && w.title == a.name && w.url == a.url
            &&& w.workspace == workspace && w.repo_url == a.repo_url && w.agent_status == a.status
            &&& w.run_status is None && w.summary is None && w.branch is None && w.pr_url is None
            &&& !w.title_locked
            &&& w.activity == label_of(a.status, None)
        }),
{
}

/// A name that the user gives is taken without the white space around it, says that the
/// agent is finished where it is not at work, and stays. A blank one is not taken.
pub proof fn law_user_names_tab(w: WatchView, title: Seq<char>)
    ensures
        ({
            let q = renamed(w, title);
            let t = trimmed(title);
            &&& t.len() == 0 ==> q == w
            &&& t.len() > 0 && watch_alive(w) ==> q.title == t
            &&& t.len() > 0 && !watch_alive(w) && ends(t, " (finished)"@) ==> q.title == t
            &&& t.len() > 0 && !watch_alive(w) && !ends(t, " (finished)"@) ==> q.title == t
                + " (finished)"@
            &&& t.len() > 0 ==> q == (WatchView { title: q.title, title_locked: true, ..w })
        }),
{
}

/// A tab is alive where its agent or its run is at work, whatever the case of the words.
pub proof fn law_watch_is_alive(w: WatchView)
    ensures
        watch_alive(w) <==> {
            ||| ascii_upper(w.agent_status) == "ACTIVE"@
            ||| ascii_upper(w.agent_status) == "RUNNING"@
            ||| ascii_upper(w.agent_status) == "CREATING"@
            ||| w.run_status is Some && ascii_upper(w.run_status->0) == "CREATING"@
            ||| w.run_status is Some && ascii_upper(w.run_status->0) == "RUNNING"@
            ||| w.run_status is Some && ascii_upper(w.run_status->0) == "PENDING"@
        },
{
}

} // verus!
