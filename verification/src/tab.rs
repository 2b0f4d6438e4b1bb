//! The tab of an agent session: its title, what its agent does, and its subagents.
use crate::path::{same, same_path};
use crate::screen::{row_texts, rows_of, title_from_terminal, title_of_rows, ScreenCell};
use crate::session::{ChatView, SavedChat, SpawnPlan, SpawnView};
use crate::subagents::{
    opt_summary, subagents_view, ChatSnapshot, SessionSummary, SnapshotView, Subagent,
    SubagentView, SummaryView,
};
use crate::text::{
    concat, ends, ends_with, is_empty, nonblank, opt_text, or_else, str_eq, trim, trim_opt, trimmed,
};
use vstd::prelude::*;
use vstd::string::*;

verus! {

/// An agent session in a tab, alive or exited. Its terminal is kept elsewhere,
/// under the same id.
pub struct AgentSession {
    pub id: u64,
    pub title: String,
    pub workspace: String,
    pub alive: bool,
    /// The session's id with the agent; empty where it is not known yet.
    pub chat_id: String,
    pub subagents: Vec<Subagent>,
    /// Has the user named the tab?
    pub title_locked: bool,
    /// What the agent does now.
    pub activity: Option<String>,
    pub summary: Option<SessionSummary>,
    /// Are the subagents hidden in the sidebar?
    pub tasks_folded: bool,
}

/// What a tab holds.
pub struct TabView {
    pub id: u64,
    pub title: Seq<char>,
    pub workspace: Seq<char>,
    pub alive: bool,
    pub chat_id: Seq<char>,
    pub subagents: Seq<SubagentView>,
    pub title_locked: bool,
    pub activity: Option<Seq<char>>,
    pub summary: Option<SummaryView>,
    pub tasks_folded: bool,
}

impl View for AgentSession {
    type V = TabView;

    open spec fn view(&self) -> TabView {
        TabView {
            id: self.id,
            title: self.title@,
            workspace: self.workspace@,
            alive: self.alive,
            chat_id: self.chat_id@,
            subagents: subagents_view(self.subagents@),
            title_locked: self.title_locked,
            activity: opt_text(self.activity),
            summary: opt_summary(self.summary),
            tasks_folded: self.tasks_folded,
        }
    }
}

/// The tab of a session that was just started.
pub open spec fn started(id: u64, p: SpawnView) -> TabView {
    TabView {
        id,
        title: p.title,
        workspace: p.workspace,
        alive: true,
        chat_id: p.chat_id,
        subagents: Seq::empty(),
        title_locked: false,
        activity: None,
        summary: None,
        tasks_folded: false,
    }
}

/// A title that says that the agent has exited.
pub open spec fn exited_title(title: Seq<char>) -> Seq<char> {
    if ends(title, " (exited)"@) {
        title
    } else {
        title + " (exited)"@
    }
}

/// A title as it is shown.
pub open spec fn shown_title(alive: bool, title: Seq<char>) -> Seq<char> {
    if alive {
        title
    } else {
        exited_title(title)
    }
}

/// A title as it is shown.
fn show_title(alive: bool, title: &str) -> (r: String)
    ensures
        r@ == shown_title(alive, title@),
{
    if alive || ends_with(title, " (exited)") {
        title.to_owned()
    } else {
        concat(title, " (exited)")
    }
}

/// A tab after what was learned of its session.
pub open spec fn refreshed(t: TabView, snap: SnapshotView) -> TabView {
    TabView {
        title: match snap.title {
            Some(s) => if t.title_locked {
                t.title
            } else {
                shown_title(t.alive, s)
            },
            None => t.title,
        },
        subagents: snap.subagents,
        activity: snap.activity,
        summary: snap.summary,
        ..t
    }
}

/// A tab after the user named it. A blank name is not taken.
pub open spec fn named(t: TabView, title: Seq<char>) -> TabView {
    if trimmed(title).len() == 0 {
        t
    } else {
        TabView { title: shown_title(t.alive, trimmed(title)), title_locked: true, ..t }
    }
}

/// A tab after its agent exited.
pub open spec fn exited(t: TabView) -> TabView {
    TabView { alive: false, title: exited_title(t.title), ..t }
}

/// A tab after its terminal set a title.
pub open spec fn terminal_titled(t: TabView, title: Seq<char>) -> TabView {
    if t.alive && !t.title_locked {
        TabView { title, ..t }
    } else {
        t
    }
}

/// A past session, with its workspace resolved where it has one.
pub struct KnownChat {
    pub chat: SavedChat,
    pub cwd: Option<String>,
}

/// What a known session holds.
pub struct KnownView {
    pub chat: ChatView,
    pub cwd: Option<Seq<char>>,
}

impl View for KnownChat {
    type V = KnownView;

    open spec fn view(&self) -> KnownView {
        KnownView { chat: self.chat@, cwd: opt_text(self.cwd) }
    }
}

/// What the known sessions of a list hold.
pub open spec fn known_view(v: Seq<KnownChat>) -> Seq<KnownView> {
    v.map_values(|k: KnownChat| k@)
}

/// The title of a past session, where it has a real one.
pub open spec fn real_title(c: ChatView) -> Option<Seq<char>> {
    match nonblank(Some(c.title)) {
        Some(t) => if t == "Untitled"@ {
            None
        } else {
            Some(t)
        },
        None => None,
    }
}

/// The first past session with an id.
pub open spec fn with_id(chats: Seq<KnownView>, id: Seq<char>) -> Option<KnownView>
    decreases chats.len(),
{
    if chats.len() == 0 {
        None
    } else if chats[0].chat.id == id {
        Some(chats[0])
    } else {
        with_id(chats.drop_first(), id)
    }
}

/// The first real title of a past session in a workspace.
pub open spec fn title_in_workspace(chats: Seq<KnownView>, workspace: Seq<char>) -> Option<Seq<char>>
    decreases chats.len(),
{
    if chats.len() == 0 {
        None
    } else {
        let here = match chats[0].cwd {
            Some(cwd) => if same(cwd, workspace) {
                real_title(chats[0].chat)
            } else {
                None
            },
            None => None,
        };
        or_else(here, title_in_workspace(chats.drop_first(), workspace))
    }
}

/// The title that past sessions suggest for a session: its own, else that of
/// another one in the same workspace.
pub open spec fn past_title(
    chats: Option<Seq<KnownView>>,
    chat_id: Seq<char>,
    workspace: Seq<char>,
) -> Option<Seq<char>> {
    match chats {
        None => None,
        Some(cs) => {
            let own = match with_id(cs, chat_id) {
                Some(k) => real_title(k.chat),
                None => None,
            };
            or_else(own, title_in_workspace(cs, workspace))
        },
    }
}

/// What an optional list of known sessions holds.
pub open spec fn opt_known(v: Option<&Vec<KnownChat>>) -> Option<Seq<KnownView>> {
    match v {
        Some(x) => Some(known_view(x@)),
        None => None,
    }
}

/// The title of a past session, where it has a real one.
fn real_title_of(c: &SavedChat) -> (r: Option<String>)
    ensures
        opt_text(r) == real_title(c@),
{
    match trim_opt(Some(c.title.as_str())) {
        Some(t) => if str_eq(t.as_str(), "Untitled") {
            None
        } else {
            Some(t)
        },
        None => None,
    }
}

/// The title that past sessions suggest for a session. `chats` are the past
/// sessions, where they could be listed, and `workspace` is resolved.
pub fn lookup_chat_title(chats: Option<&Vec<KnownChat>>, chat_id: &str, workspace: &str) -> (r:
    Option<String>)
    ensures
        opt_text(r) == past_title(opt_known(chats), chat_id@, workspace@),
{
    let cs = match chats {
        Some(cs) => cs,
        None => return None,
    };
    let ghost all = known_view(cs@);
    let mut i: usize = 0;
    assert(all.skip(0) =~= all);
    while i < cs.len() && !str_eq(cs[i].chat.id.as_str(), chat_id)
        invariant
            i <= cs@.len(),
            all == known_view(cs@),
            with_id(all.skip(i as int), chat_id@) == with_id(all, chat_id@),
        decreases cs.len() - i,
    {
        proof {
            assert(all.skip(i as int)[0] == cs@[i as int]@);
            assert(all.skip(i as int).drop_first() =~= all.skip(i + 1));
        }
        i += 1;
    }
    if i < cs.len() {
        assert(all.skip(i as int)[0] == cs@[i as int]@);
        if let Some(t) = real_title_of(&cs[i].chat) {
            return Some(t);
        }
    }
    let mut j: usize = 0;
    while j < cs.len()
        invariant
            j <= cs@.len(),
            all == known_view(cs@),
            chats == Some(cs),
            (match with_id(all, chat_id@) {
                Some(k) => real_title(k.chat),
                None => None,
            }) is None,
            title_in_workspace(all.skip(j as int), workspace@) == title_in_workspace(
                all,
                workspace@,
            ),
        decreases cs.len() - j,
    {
        proof {
            assert(all.skip(j as int)[0] == cs@[j as int]@);
            assert(all.skip(j as int).drop_first() =~= all.skip(j + 1));
        }
        if let Some(cwd) = &cs[j].cwd {
            if same_path(cwd.as_str(), workspace) {
                if let Some(t) = real_title_of(&cs[j].chat) {
                    return Some(t);
                }
            }
        }
        j += 1;
    }
    None
}

/// The title that past sessions, or else the screen, suggest for a session.
pub open spec fn suggested_title(
    chats: Option<Seq<KnownView>>,
    chat_id: Seq<char>,
    workspace: Seq<char>,
    cells: Seq<ScreenCell>,
) -> Option<Seq<char>> {
    or_else(past_title(chats, chat_id, workspace), title_of_rows(row_texts(rows_of(cells))))
}

/// A tab after it was named by what past sessions, or else its screen, suggest.
pub open spec fn auto_named(
    t: TabView,
    chats: Option<Seq<KnownView>>,
    workspace: Seq<char>,
    cells: Seq<ScreenCell>,
) -> TabView {
    match suggested_title(chats, t.chat_id, workspace, cells) {
        Some(title) => named(t, title),
        None => t,
    }
}

/// Are two optional texts the same?
fn opt_eq(a: &Option<String>, b: &Option<String>) -> (r: bool)
    ensures
        r == (opt_text(*a) == opt_text(*b)),
{
    match (a, b) {
        (Some(x), Some(y)) => str_eq(x.as_str(), y.as_str()),
        (None, None) => true,
        _ => false,
    }
}

/// Do two lists hold the same subagents?
pub fn same_subagents(a: &Vec<Subagent>, b: &Vec<Subagent>) -> (r: bool)
    ensures
        r == (subagents_view(a@) == subagents_view(b@)),
{
    if a.len() != b.len() {
        assert(subagents_view(a@).len() != subagents_view(b@).len());
        return false;
    }
    let mut i: usize = 0;
    while i < a.len()
        invariant
            i <= a@.len(),
            a@.len() == b@.len(),
            forall|j: int| 0 <= j < i ==> (#[trigger] a@[j])@ == b@[j]@,
        decreases a.len() - i,
    {
        let same = str_eq(a[i].id.as_str(), b[i].id.as_str()) && str_eq(
            a[i].title.as_str(),
            b[i].title.as_str(),
        ) && opt_eq(&a[i].kind, &b[i].kind) && a[i].status == b[i].status && opt_eq(
            &a[i].chat_id,
            &b[i].chat_id,
        );
        if !same {
            assert(subagents_view(a@)[i as int] != subagents_view(b@)[i as int]);
            return false;
        }
        i += 1;
    }
    assert(subagents_view(a@) =~= subagents_view(b@));
    true
}

impl AgentSession {
    /// The tab of a session that was just started.
    pub fn spawn(id: u64, plan: &SpawnPlan) -> (r: AgentSession)
        ensures
            r@ == started(id, plan@),
    {
        let r = AgentSession {
            id,
            title: plan.title.clone(),
            workspace: plan.workspace.clone(),
            alive: true,
            chat_id: plan.chat_id.clone(),
            subagents: Vec::new(),
            title_locked: false,
            activity: None,
            summary: None,
            tasks_folded: false,
        };
        assert(subagents_view(r.subagents@) =~= Seq::empty());
        r
    }

    /// Takes in what was learned of the session. Says whether the title or the
    /// subagents changed.
    pub fn poll_chat_state(&mut self, snap: ChatSnapshot) -> (changed: bool)
        ensures
            final(self)@ == refreshed(old(self)@, snap@),
            changed == (final(self)@.title != old(self)@.title || final(self)@.subagents != old(
                self,
            )@.subagents),
    {
        let mut changed = false;
        if !self.title_locked {
            if let Some(title) = &snap.title {
                let next = show_title(self.alive, title.as_str());
                if !str_eq(self.title.as_str(), next.as_str()) {
                    self.title = next;
                    changed = true;
                }
            }
        }
        if !same_subagents(&self.subagents, &snap.subagents) {
            changed = true;
        }
        self.subagents = snap.subagents;
        self.activity = snap.activity;
        self.summary = snap.summary;
        changed
    }

    /// Names the tab.
    pub fn set_user_title(&mut self, title: &str)
        ensures
            final(self)@ == named(old(self)@, title@),
    {
        let t = trim(title);
        if is_empty(t) {
            return;
        }
        self.title = show_title(self.alive, t);
        self.title_locked = true;
    }

    /// Names the tab by the title that past sessions, or else the screen, suggest.
    pub fn auto_rename_from_content(
        &mut self,
        chats: Option<&Vec<KnownChat>>,
        workspace: &str,
        cells: &Vec<ScreenCell>,
    )
        ensures
            final(self)@ == auto_named(old(self)@, opt_known(chats), workspace@, cells@),
    {
        if let Some(t) = lookup_chat_title(chats, self.chat_id.as_str(), workspace) {
            self.set_user_title(t.as_str());
            return;
        }
        if let Some(t) = title_from_terminal(cells) {
            self.set_user_title(t.as_str());
        }
    }

    /// Takes in that the agent exited.
    pub fn mark_exited(&mut self)
        ensures
            final(self)@ == exited(old(self)@),
    {
        self.alive = false;
        if !ends_with(self.title.as_str(), " (exited)") {
            let title = concat(self.title.as_str(), " (exited)");
            self.title = title;
        }
    }

    /// Takes in a title that the terminal set.
    pub fn set_terminal_title(&mut self, title: String)
        ensures
            final(self)@ == terminal_titled(old(self)@, title@),
    {
        if self.alive && !self.title_locked {
            self.title = title;
        }
    }

    /// Takes in the session's id, once it is known.
    pub fn bind_chat(&mut self, chat_id: String)
        ensures
            final(self)@ == (TabView { chat_id: chat_id@, ..old(self)@ }),
    {
        self.chat_id = chat_id;
    }
}

/// Does the agent wait for the user?
pub open spec fn waits(t: TabView) -> bool {
    t.alive && t.activity == Some("Waiting for input"@)
}

/// Is the agent at work?
pub open spec fn busy(t: TabView) -> bool {
    t.alive && t.activity is Some && t.activity != Some("Waiting for input"@) && t.activity
        != Some("Idle"@)
}

impl AgentSession {
    /// Does the agent wait for the user?
    pub fn needs_input(&self) -> (r: bool)
        ensures
            r == waits(self@),
    {
        self.alive && match &self.activity {
            Some(a) => str_eq(a.as_str(), "Waiting for input"),
            None => false,
        }
    }

    /// Is the agent at work?
    pub fn has_activity(&self) -> (r: bool)
        ensures
            r == busy(self@),
    {
        self.alive && match &self.activity {
            Some(a) => !str_eq(a.as_str(), "Waiting for input") && !str_eq(a.as_str(), "Idle"),
            None => false,
        }
    }
}

/// A name that the user gave stays, whatever is learned of the session or set
/// by the terminal.
pub proof fn law_user_title_stays(
    t: TabView,
    title: Seq<char>,
    snap: SnapshotView,
    other: Seq<char>,
)
    requires
        trimmed(title).len() > 0,
    ensures
        refreshed(named(t, title), snap).title == named(t, title).title,
        terminal_titled(named(t, title), other).title == named(t, title).title,
        refreshed(named(t, title), snap).title_locked,
{
}

/// The tab of an agent that has exited says so, and goes on saying so.
pub proof fn law_exited_tab_says_so(t: TabView, snap: SnapshotView, other: Seq<char>)
    ensures
        ends(exited(t).title, " (exited)"@),
        ends(refreshed(exited(t), snap).title, " (exited)"@),
        terminal_titled(exited(t), other) == exited(t),
        exited(exited(t)) == exited(t),
{
    lemma_exited_title_ends(t.title);
    if let Some(s) = snap.title {
        lemma_exited_title_ends(s);
    }
}

/// An exited title ends as it should.
proof fn lemma_exited_title_ends(title: Seq<char>)
    ensures
        ends(exited_title(title), " (exited)"@),
{
    let e = " (exited)"@;
    let all = title + e;
    assert(all.skip(all.len() - e.len()) =~= e);
}

/// Looking twice at the same state changes nothing more.
pub proof fn law_refresh_is_idempotent(t: TabView, snap: SnapshotView)
    ensures
        refreshed(refreshed(t, snap), snap) == refreshed(t, snap),
{
}

/// The tab of a new session shows what was started: it is alive, has no subagents and
/// no summary yet, and may still be renamed by itself.
pub proof fn law_started_tab_shows_plan(id: u64, p: SpawnView)
    ensures
        ({
            let t = started(id, p);
            &&& t.id == id && t.title == p.title && t.workspace == p.workspace
            &&& t.chat_id == p.chat_id
            &&& t.alive && !t.title_locked && !t.tasks_folded
            &&& t.subagents.len() == 0 && t.activity is None && t.summary is None
        }),
{
}

/// What is learned of a session replaces what was known: its subagents, what it does
/// and its summary. Its title is taken unless the user gave one, and goes on saying that
/// the agent has exited. Nothing else changes.
pub proof fn law_refresh_takes_in_snapshot(t: TabView, snap: SnapshotView)
    ensures
        ({
            let r = refreshed(t, snap);
            &&& r.subagents == snap.subagents
            &&& r.activity == snap.activity
            &&& r.summary == snap.summary
            &&& r.id == t.id && r.workspace == t.workspace && r.alive == t.alive
            &&& r.chat_id == t.chat_id && r.title_locked == t.title_locked
            &&& r.tasks_folded == t.tasks_folded
            &&& t.title_locked || snap.title is None ==> r.title == t.title
            &&& !t.title_locked && snap.title is Some && t.alive ==> r.title == snap.title->0
            &&& !t.title_locked && snap.title is Some && !t.alive && ends(
                snap.title->0,
                " (exited)"@,
            ) ==> r.title == snap.title->0
            &&& !t.title_locked && snap.title is Some && !t.alive && !ends(
                snap.title->0,
                " (exited)"@,
            ) ==> r.title == snap.title->0 + " (exited)"@
        }),
{
}

/// A name that the user gives is taken without the white space around it, and stays; a
/// blank one is not taken. Only the title changes.
pub proof fn law_user_names_session(t: TabView, title: Seq<char>)
    ensures
        ({
            let r = named(t, title);
            &&& trimmed(title).len() == 0 ==> r == t
            &&& trimmed(title).len() > 0 ==> r == (TabView {
                title: r.title,
                title_locked: true,
                ..t
            })
            &&& trimmed(title).len() > 0 && t.alive ==> r.title == trimmed(title)
            &&& trimmed(title).len() > 0 && !t.alive && !ends(trimmed(title), " (exited)"@)
                ==> r.title == trimmed(title) + " (exited)"@
            &&& trimmed(title).len() > 0 && !t.alive && ends(trimmed(title), " (exited)"@)
                ==> r.title == trimmed(title)
        }),
{
}

/// An exit changes only the title, which then says so, and whether the agent is alive.
pub proof fn law_exit_marks_tab(t: TabView)
    ensures
        exited(t) == (TabView { alive: false, title: exited(t).title, ..t }),
        ends(t.title, " (exited)"@) ==> exited(t).title == t.title,
        !ends(t.title, " (exited)"@) ==> exited(t).title == t.title + " (exited)"@,
{
}

/// The terminal names the tab of a living agent that the user has not named, and
/// changes nothing else.
pub proof fn law_terminal_names_tab(t: TabView, title: Seq<char>)
    ensures
        t.alive && !t.title_locked ==> terminal_titled(t, title) == (TabView { title, ..t }),
        !t.alive || t.title_locked ==> terminal_titled(t, title) == t,
{
}

/// Does a past session have a title that was given to it?
pub open spec fn is_titled(k: KnownView, title: Seq<char>) -> bool {
    trimmed(k.chat.title).len() > 0 && trimmed(k.chat.title) != "Untitled"@ && title == trimmed(
        k.chat.title,
    )
}

/// The title that past sessions suggest is the session's own, where it has one that was
/// given to it; else it is that of a past session in the same workspace.
pub proof fn law_past_title_is_own_or_near(
    cs: Seq<KnownView>,
    chat_id: Seq<char>,
    workspace: Seq<char>,
    i: int,
)
    requires
        0 <= i < cs.len(),
        forall|j: int| 0 <= j < i ==> (#[trigger] cs[j]).chat.id != chat_id,
    ensures
        cs[i].chat.id == chat_id && trimmed(cs[i].chat.title).len() > 0 && trimmed(
            cs[i].chat.title,
        ) != "Untitled"@ ==> past_title(Some(cs), chat_id, workspace) == Some(
            trimmed(cs[i].chat.title),
        ),
        past_title(Some(cs), chat_id, workspace) matches Some(t) ==> exists|j: int|
            0 <= j < cs.len() && is_titled(#[trigger] cs[j], t) && (cs[j].chat.id == chat_id || (
            cs[j].cwd is Some && same(cs[j].cwd->0, workspace))),
{
    lemma_with_id(cs, chat_id);
    if cs[i].chat.id == chat_id {
        lemma_with_id_is(cs, chat_id, i);
    }
    lemma_title_near(cs, workspace);
    if let Some(t) = past_title(Some(cs), chat_id, workspace) {
        let own = match with_id(cs, chat_id) {
            Some(k) => real_title(k.chat),
            None => None,
        };
        if own is Some {
            let j = choose|j: int| 0 <= j < cs.len() && #[trigger] cs[j] == with_id(cs, chat_id)->0;
            assert(is_titled(cs[j], t));
        } else {
            let j = choose|j: int|
                0 <= j < cs.len() && is_titled(#[trigger] cs[j], t) && cs[j].cwd is Some && same(
                    cs[j].cwd->0,
                    workspace,
                );
            assert(is_titled(cs[j], t));
        }
    }
}

/// What is found by id has the id.
proof fn lemma_with_id(cs: Seq<KnownView>, id: Seq<char>)
    ensures
        with_id(cs, id) matches Some(k) ==> k.chat.id == id && exists|j: int|
            0 <= j < cs.len() && #[trigger] cs[j] == k,
    decreases cs.len(),
{
    if cs.len() > 0 && cs[0].chat.id != id {
        let t = cs.drop_first();
        lemma_with_id(t, id);
        if let Some(k) = with_id(t, id) {
            let j = choose|j: int| 0 <= j < t.len() && #[trigger] t[j] == k;
            assert(cs[j + 1] == k);
        }
    }
}

/// The first with the id is found.
proof fn lemma_with_id_is(cs: Seq<KnownView>, id: Seq<char>, i: int)
    requires
        0 <= i < cs.len(),
        cs[i].chat.id == id,
        forall|j: int| 0 <= j < i ==> (#[trigger] cs[j]).chat.id != id,
    ensures
        with_id(cs, id) == Some(cs[i]),
    decreases cs.len(),
{
    if i > 0 {
        let t = cs.drop_first();
        assert(cs[0].chat.id != id);
        assert forall|j: int| 0 <= j < i - 1 implies (#[trigger] t[j]).chat.id != id by {
            assert(cs[j + 1].chat.id != id);
        }
        lemma_with_id_is(t, id, i - 1);
    }
}

/// A title that is found in a workspace is one of a session there.
proof fn lemma_title_near(cs: Seq<KnownView>, workspace: Seq<char>)
    ensures
        title_in_workspace(cs, workspace) matches Some(t) ==> exists|j: int|
            0 <= j < cs.len() && is_titled(#[trigger] cs[j], t) && cs[j].cwd is Some && same(
                cs[j].cwd->0,
                workspace,
            ),
    decreases cs.len(),
{
    if cs.len() > 0 {
        let rest = cs.drop_first();
        lemma_title_near(rest, workspace);
        if let Some(t) = title_in_workspace(cs, workspace) {
            let here = cs[0].cwd is Some && same(cs[0].cwd->0, workspace) && real_title(cs[0].chat)
                is Some;
            if here {
                assert(is_titled(cs[0], t));
            } else {
                let j = choose|j: int|
                    0 <= j < rest.len() && is_titled(#[trigger] rest[j], t) && rest[j].cwd is Some
                        && same(rest[j].cwd->0, workspace);
                assert(cs[j + 1] == rest[j]);
                assert(is_titled(cs[j + 1], t));
            }
        }
    }
}

/// A session in the workspace that has a title always suggests one.
pub proof fn law_near_session_suggests_title(
    cs: Seq<KnownView>,
    chat_id: Seq<char>,
    workspace: Seq<char>,
    i: int,
)
    requires
        0 <= i < cs.len(),
        cs[i].cwd is Some && same(cs[i].cwd->0, workspace),
        trimmed(cs[i].chat.title).len() > 0,
        trimmed(cs[i].chat.title) != "Untitled"@,
    ensures
        past_title(Some(cs), chat_id, workspace) is Some,
        past_title(None, chat_id, workspace) is None,
{
    lemma_title_near_is(cs, workspace, i);
}

/// A title in the workspace is found.
proof fn lemma_title_near_is(cs: Seq<KnownView>, workspace: Seq<char>, i: int)
    requires
        0 <= i < cs.len(),
        cs[i].cwd is Some && same(cs[i].cwd->0, workspace),
        real_title(cs[i].chat) is Some,
    ensures
        title_in_workspace(cs, workspace) is Some,
    decreases cs.len(),
{
    if i > 0 {
        assert(cs.drop_first()[i - 1] == cs[i]);
        lemma_title_near_is(cs.drop_first(), workspace, i - 1);
    }
}

/// A tab names itself by what past sessions suggest, before what its screen shows; where
/// neither suggests anything it stays as it is.
pub proof fn law_tab_names_itself(
    t: TabView,
    chats: Option<Seq<KnownView>>,
    workspace: Seq<char>,
    cells: Seq<ScreenCell>,
)
    ensures
        past_title(chats, t.chat_id, workspace) matches Some(title) ==> auto_named(
            t,
            chats,
            workspace,
            cells,
        ) == named(t, title),
        past_title(chats, t.chat_id, workspace) is None && title_of_rows(row_texts(rows_of(cells)))
            is Some ==> auto_named(t, chats, workspace, cells) == named(
            t,
            title_of_rows(row_texts(rows_of(cells)))->0,
        ),
        past_title(chats, t.chat_id, workspace) is None && title_of_rows(row_texts(rows_of(cells)))
            is None ==> auto_named(t, chats, workspace, cells) == t,
{
}

/// No agent both waits for the user and is at work, and one that has exited does neither.
pub proof fn law_waiting_is_not_working(t: TabView)
    ensures
        !(waits(t) && busy(t)),
        !t.alive ==> !waits(t) && !busy(t),
        t.alive ==> (waits(t) <==> t.activity == Some("Waiting for input"@)),
        t.activity == Some("Idle"@) || t.activity is None ==> !busy(t),
        t.alive && t.activity is Some && t.activity != Some("Idle"@) ==> waits(t) || busy(t),
{
    reveal_strlit("Idle");
    reveal_strlit("Waiting for input");
}

} // verus!
