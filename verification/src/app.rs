//! The manager: its sessions, its dialogs, and what each event makes of them.
use crate::dialogs::{
    auth_dialog_for, blank_convert, load_result, loading_dialog, reloaded, rename_dialog_for,
    resume_draft, AuthDialog, AuthView, ConvertDialog, ConvertView, RenameDialog, RenameView,
    ResumeDialog, ResumeView,
};
use crate::digits::{decimal, to_decimal};
use crate::history::{
    history_holds, law_history_is_bounded, push_convert_history, remembered, snippets_view,
    ConvertSnippet, SnippetView,
};
use crate::oidc::OidcLoginConfig;
use crate::path::{same, same_path};
use crate::screen::{ScreenCell};
use crate::session::{
    blank_draft, spawn_result, title_case_words, title_cased, ChatView, DraftView, NewSessionDraft,
    SavedChat, SpawnPlan, SpawnView,
};
use crate::sidebar::tabs_view;
use crate::split::texts;
use crate::subagents::{ChatSnapshot, SnapshotView};
use crate::tab::{
    auto_named, exited, named, opt_known, refreshed, started, terminal_titled, AgentSession,
    KnownChat, KnownView, TabView,
};
use crate::text::{concat, concat3, is_empty, opt_text, opt_view, str_eq, trim, trimmed};
use vstd::prelude::*;
use vstd::string::*;

verus! {

/// How long a closed session's terminal is kept for its agent to exit, in
/// milliseconds.
pub const PTY_DRAIN_TIMEOUT_MS: u64 = 2000;

/// A session that is being prepared.
pub struct PendingSpawn {
    /// Tells it from those that were given up.
    pub gen: u64,
    /// Kept to open the dialog again where it fails.
    pub draft: NewSessionDraft,
    pub from_resume: bool,
}

/// What a session that is being prepared holds.
pub struct PendingView {
    pub gen: u64,
    pub draft: DraftView,
    pub from_resume: bool,
}

impl View for PendingSpawn {
    type V = PendingView;

    open spec fn view(&self) -> PendingView {
        PendingView { gen: self.gen, draft: self.draft@, from_resume: self.from_resume }
    }
}

/// A session that is prepared and to be started.
pub struct SpawnStart {
    pub id: u64,
    pub plan: SpawnPlan,
    pub pending: PendingSpawn,
}

/// A session whose transcript is watched.
pub struct ChatWatch {
    pub id: u64,
    pub chat_id: String,
    pub workspace: String,
}

/// What a watched session holds.
pub struct ChatWatchView {
    pub id: u64,
    pub chat_id: Seq<char>,
    pub workspace: Seq<char>,
}

impl View for ChatWatch {
    type V = ChatWatchView;

    open spec fn view(&self) -> ChatWatchView {
        ChatWatchView { id: self.id, chat_id: self.chat_id@, workspace: self.workspace@ }
    }
}

/// What the watched sessions of a list hold.
pub open spec fn watches_view(v: Seq<ChatWatch>) -> Seq<ChatWatchView> {
    v.map_values(|w: ChatWatch| w@)
}

/// A closed session whose agent has yet to exit.
#[derive(Debug, Clone, Copy, PartialEq, Eq, Structural)]
pub struct DrainingPty {
    pub id: u64,
    pub since_ms: u64,
}

/// The manager.
pub struct App {
    pub next_id: u64,
    /// The sessions, by their ids.
    pub sessions: Vec<AgentSession>,
    pub active: Option<u64>,
    /// What the poller was last told to watch.
    pub last_chat_watch: Vec<ChatWatch>,
    pub new_dialog: Option<NewSessionDraft>,
    pub resume_dialog: Option<ResumeDialog>,
    pub rename_dialog: Option<RenameDialog>,
    pub convert_dialog: Option<ConvertDialog>,
    pub auth_dialog: Option<AuthDialog>,
    pub spawn_error: Option<String>,
    pub pending_spawn: Option<PendingSpawn>,
    pub spawn_gen: u64,
    /// Which listing of past sessions is awaited.
    pub resume_load: Option<u64>,
    pub load_gen: u64,
    pub convert_gen: u64,
    /// The scripts that were converted, newest first.
    pub convert_history: Vec<ConvertSnippet>,
    /// The closed sessions whose agents have yet to exit.
    pub draining: Vec<DrainingPty>,
    /// The workspaces whose sessions are hidden in the sidebar.
    pub workspace_folded: Vec<String>,
    /// Is the stored token still to be tried?
    pub pending_auto_auth: bool,
    pub cursor_auth_label: String,
}

/// What the manager holds.
pub struct AppView {
    pub next_id: u64,
    pub tabs: Seq<TabView>,
    pub active: Option<u64>,
    pub watches: Seq<ChatWatchView>,
    pub new_dialog: Option<DraftView>,
    pub resume: Option<ResumeView>,
    pub rename: Option<RenameView>,
    pub convert: Option<ConvertView>,
    pub auth: Option<AuthView>,
    pub spawn_error: Option<Seq<char>>,
    pub pending: Option<PendingView>,
    pub spawn_gen: u64,
    pub resume_load: Option<u64>,
    pub load_gen: u64,
    pub convert_gen: u64,
    pub history: Seq<SnippetView>,
    pub draining: Seq<DrainingPty>,
    pub folded: Seq<Seq<char>>,
    pub pending_auto_auth: bool,
    pub auth_label: Seq<char>,
}

/// What a value that may be there holds.
pub open spec fn opt_of<T: View>(v: Option<T>) -> Option<T::V> {
    match v {
        Some(x) => Some(x@),
        None => None,
    }
}

impl View for App {
    type V = AppView;

    open spec fn view(&self) -> AppView {
        AppView {
            next_id: self.next_id,
            tabs: tabs_view(self.sessions@),
            active: self.active,
            watches: watches_view(self.last_chat_watch@),
            new_dialog: opt_of(self.new_dialog),
            resume: opt_of(self.resume_dialog),
            rename: opt_of(self.rename_dialog),
            convert: opt_of(self.convert_dialog),
            auth: opt_of(self.auth_dialog),
            spawn_error: opt_text(self.spawn_error),
            pending: opt_of(self.pending_spawn),
            spawn_gen: self.spawn_gen,
            resume_load: self.resume_load,
            load_gen: self.load_gen,
            convert_gen: self.convert_gen,
            history: snippets_view(self.convert_history@),
            draining: self.draining@,
            folded: texts(self.workspace_folded@),
            pending_auto_auth: self.pending_auto_auth,
            auth_label: self.cursor_auth_label@,
        }
    }
}

/// The manager when it starts.
pub open spec fn fresh_app(label: Seq<char>) -> AppView {
    AppView {
        next_id: 1,
        tabs: Seq::empty(),
        active: None,
        watches: Seq::empty(),
        new_dialog: None,
        resume: None,
        rename: None,
        convert: None,
        auth: None,
        spawn_error: None,
        pending: None,
        spawn_gen: 0,
        resume_load: None,
        load_gen: 0,
        convert_gen: 0,
        history: Seq::empty(),
        draining: Seq::empty(),
        folded: Seq::empty(),
        pending_auto_auth: true,
        auth_label: label,
    }
}

/// The number after `n`; it starts over after the last.
pub open spec fn after(n: u64) -> u64 {
    if n == u64::MAX {
        0
    } else {
        (n + 1) as u64
    }
}

/// The number after `n`; it starts over after the last.
fn next_gen(n: u64) -> (r: u64)
    ensures
        r == after(n),
{
    if n == u64::MAX {
        0
    } else {
        n + 1
    }
}

/// The place of the first tab with an id; how many tabs there are where there
/// is none.
pub open spec fn place_of(tabs: Seq<TabView>, id: u64) -> int
    decreases tabs.len(),
{
    if tabs.len() == 0 {
        0
    } else if tabs[0].id == id {
        0
    } else {
        1 + place_of(tabs.drop_first(), id)
    }
}

/// Is there a tab with this id?
pub open spec fn has_tab(tabs: Seq<TabView>, id: u64) -> bool {
    place_of(tabs, id) < tabs.len()
}

/// What is known of the place of a tab.
proof fn lemma_place(tabs: Seq<TabView>, id: u64)
    ensures
        0 <= place_of(tabs, id) <= tabs.len(),
        has_tab(tabs, id) ==> tabs[place_of(tabs, id)].id == id,
        forall|i: int| 0 <= i < place_of(tabs, id) ==> (#[trigger] tabs[i]).id != id,
    decreases tabs.len(),
{
    if tabs.len() > 0 && tabs[0].id != id {
        let t = tabs.drop_first();
        lemma_place(t, id);
        assert forall|i: int| 0 <= i < place_of(tabs, id) implies (#[trigger] tabs[i]).id != id by {
            if i > 0 {
                assert(tabs[i] == t[i - 1]);
            }
        }
    }
}

/// The tabs with `t` in place of the tab with the same place.
pub open spec fn put_tab(tabs: Seq<TabView>, id: u64, t: TabView) -> Seq<TabView> {
    tabs.update(place_of(tabs, id), t)
}

/// The tab with an id.
pub open spec fn tab_with(tabs: Seq<TabView>, id: u64) -> TabView {
    tabs[place_of(tabs, id)]
}

/// The active tab, where there is one.
pub open spec fn active_tab(v: AppView) -> Option<TabView> {
    match v.active {
        Some(id) => if has_tab(v.tabs, id) {
            Some(tab_with(v.tabs, id))
        } else {
            None
        },
        None => None,
    }
}

/// Where the tab with an id stands.
fn find_tab(sessions: &Vec<AgentSession>, id: u64) -> (r: Option<usize>)
    ensures
        match r {
            Some(k) => k == place_of(tabs_view(sessions@), id) && k < sessions@.len() && has_tab(
                tabs_view(sessions@),
                id,
            ),
            None => !has_tab(tabs_view(sessions@), id),
        },
{
    let ghost all = tabs_view(sessions@);
    let mut i: usize = 0;
    assert(all.skip(0) =~= all);
    while i < sessions.len()
        invariant
            i <= sessions@.len(),
            all == tabs_view(sessions@),
            place_of(all, id) == i + place_of(all.skip(i as int), id),
        decreases sessions.len() - i,
    {
        proof {
            assert(all.skip(i as int)[0] == sessions@[i as int]@);
            assert(all.skip(i as int).drop_first() =~= all.skip(i + 1));
        }
        if sessions[i].id == id {
            return Some(i);
        }
        i += 1;
    }
    proof {
        assert(all.skip(i as int).len() == 0);
    }
    None
}

/// The last tab whose id is smaller than `id`.
pub open spec fn last_below(tabs: Seq<TabView>, id: u64) -> Option<u64>
    decreases tabs.len(),
{
    if tabs.len() == 0 {
        None
    } else if tabs.last().id < id {
        Some(tabs.last().id)
    } else {
        last_below(tabs.drop_last(), id)
    }
}

/// Which of the tabs that stay becomes active where the active one was closed:
/// the one before it, else the first.
pub open spec fn next_active(tabs: Seq<TabView>, closed: u64) -> Option<u64> {
    match last_below(tabs, closed) {
        Some(id) => Some(id),
        None => if tabs.len() > 0 {
            Some(tabs[0].id)
        } else {
            None
        },
    }
}

/// Which of the tabs that stay becomes active where the active one was closed.
fn pick_active(sessions: &Vec<AgentSession>, closed: u64) -> (r: Option<u64>)
    ensures
        r == next_active(tabs_view(sessions@), closed),
{
    let ghost all = tabs_view(sessions@);
    let mut i: usize = sessions.len();
    assert(all.take(i as int) =~= all);
    while i > 0
        invariant
            i <= sessions@.len(),
            all == tabs_view(sessions@),
            last_below(all.take(i as int), closed) == last_below(all, closed),
        decreases i,
    {
        proof {
            assert(all.take(i as int).last() == sessions@[i - 1]@);
            assert(all.take(i as int).drop_last() =~= all.take(i - 1));
        }
        let id = sessions[i - 1].id;
        if id < closed {
            return Some(id);
        }
        i -= 1;
    }
    if sessions.len() > 0 {
        assert(all[0] == sessions@[0]@);
        Some(sessions[0].id)
    } else {
        None
    }
}

/// What becomes of the terminal of a session that is closed.
#[derive(Debug, Clone, Copy, PartialEq, Eq, Structural)]
pub enum CloseAction {
    /// There is no such session.
    Nothing,
    /// The agent has exited: the terminal is dropped.
    Drop,
    /// The agent is killed; its terminal is kept until it has exited.
    Kill,
}

/// The manager after a session was closed.
pub open spec fn closed(v: AppView, id: u64, now_ms: u64) -> AppView {
    let k = place_of(v.tabs, id);
    let there = has_tab(v.tabs, id);
    let rest = if there {
        v.tabs.remove(k)
    } else {
        v.tabs
    };
    AppView {
        tabs: rest,
        draining: if there && v.tabs[k].alive {
            v.draining.push(DrainingPty { id, since_ms: now_ms })
        } else {
            v.draining
        },
        active: if v.active == Some(id) {
            next_active(rest, id)
        } else {
            v.active
        },
        ..v
    }
}

/// What becomes of the terminal of a session that is closed.
pub open spec fn close_action(v: AppView, id: u64) -> CloseAction {
    if !has_tab(v.tabs, id) {
        CloseAction::Nothing
    } else if tab_with(v.tabs, id).alive {
        CloseAction::Kill
    } else {
        CloseAction::Drop
    }
}

/// The closed sessions but those with an id.
pub open spec fn without_id(ds: Seq<DrainingPty>, id: u64) -> Seq<DrainingPty>
    decreases ds.len(),
{
    if ds.len() == 0 {
        Seq::empty()
    } else {
        let before = without_id(ds.drop_last(), id);
        if ds.last().id == id {
            before
        } else {
            before.push(ds.last())
        }
    }
}

/// Has a closed session been waited for long enough?
pub open spec fn overdue(d: DrainingPty, now_ms: u64) -> bool {
    now_ms - d.since_ms >= PTY_DRAIN_TIMEOUT_MS
}

/// The closed sessions that are still waited for.
pub open spec fn awaited(ds: Seq<DrainingPty>, now_ms: u64) -> Seq<DrainingPty>
    decreases ds.len(),
{
    if ds.len() == 0 {
        Seq::empty()
    } else {
        let before = awaited(ds.drop_last(), now_ms);
        if overdue(ds.last(), now_ms) {
            before
        } else {
            before.push(ds.last())
        }
    }
}

/// The ids of the closed sessions that are given up.
pub open spec fn given_up(ds: Seq<DrainingPty>, now_ms: u64) -> Seq<u64>
    decreases ds.len(),
{
    if ds.len() == 0 {
        Seq::empty()
    } else {
        let before = given_up(ds.drop_last(), now_ms);
        if overdue(ds.last(), now_ms) {
            before.push(ds.last().id)
        } else {
            before
        }
    }
}

/// The manager after an agent exited.
pub open spec fn pty_exited(v: AppView, id: u64) -> AppView {
    AppView {
        draining: without_id(v.draining, id),
        tabs: if has_tab(v.tabs, id) {
            put_tab(v.tabs, id, exited(tab_with(v.tabs, id)))
        } else {
            v.tabs
        },
        ..v
    }
}

/// The manager after a terminal took a title.
pub open spec fn pty_titled(v: AppView, id: u64, title: Seq<char>) -> AppView {
    AppView {
        tabs: if has_tab(v.tabs, id) {
            put_tab(v.tabs, id, terminal_titled(tab_with(v.tabs, id), title))
        } else {
            v.tabs
        },
        ..v
    }
}

/// The manager after something was learned of a session.
pub open spec fn snapped(v: AppView, id: u64, snap: SnapshotView) -> AppView {
    AppView {
        tabs: if has_tab(v.tabs, id) {
            put_tab(v.tabs, id, refreshed(tab_with(v.tabs, id), snap))
        } else {
            v.tabs
        },
        ..v
    }
}

/// The manager after the tasks of a session were hidden or shown.
pub open spec fn tasks_toggled(v: AppView, id: u64) -> AppView {
    AppView {
        tabs: if has_tab(v.tabs, id) {
            let t = tab_with(v.tabs, id);
            put_tab(v.tabs, id, TabView { tasks_folded: !t.tasks_folded, ..t })
        } else {
            v.tabs
        },
        ..v
    }
}

/// The manager after the transcript of a session was found. A session whose
/// transcript is known already keeps it.
pub open spec fn chat_bound(v: AppView, id: u64, chat_id: Seq<char>) -> AppView {
    AppView {
        tabs: if has_tab(v.tabs, id) && tab_with(v.tabs, id).chat_id.len() == 0 {
            put_tab(v.tabs, id, TabView { chat_id, ..tab_with(v.tabs, id) })
        } else {
            v.tabs
        },
        ..v
    }
}

/// The sessions at work whose transcripts are not known yet.
pub open spec fn unbound_of(tabs: Seq<TabView>) -> Seq<u64>
    decreases tabs.len(),
{
    if tabs.len() == 0 {
        Seq::empty()
    } else {
        let before = unbound_of(tabs.drop_last());
        if tabs.last().alive && tabs.last().chat_id.len() == 0 {
            before.push(tabs.last().id)
        } else {
            before
        }
    }
}

/// The manager after the user asked to name a tab by what it shows.
pub open spec fn auto_renamed(
    v: AppView,
    id: u64,
    chats: Option<Seq<KnownView>>,
    workspace: Seq<char>,
    cells: Seq<ScreenCell>,
) -> AppView {
    AppView {
        tabs: if has_tab(v.tabs, id) {
            put_tab(v.tabs, id, auto_named(tab_with(v.tabs, id), chats, workspace, cells))
        } else {
            v.tabs
        },
        ..v
    }
}

/// What is to be watched: the sessions whose transcripts are known.
pub open spec fn watches_of(tabs: Seq<TabView>) -> Seq<ChatWatchView>
    decreases tabs.len(),
{
    if tabs.len() == 0 {
        Seq::empty()
    } else {
        let before = watches_of(tabs.drop_last());
        let t = tabs.last();
        if t.chat_id.len() == 0 {
            before
        } else {
            before.push(
                ChatWatchView { id: t.id, chat_id: t.chat_id, workspace: t.workspace },
            )
        }
    }
}

/// Are two watched sessions the same?
pub open spec fn same_watch(a: ChatWatchView, b: ChatWatchView) -> bool {
    a.id == b.id && a.chat_id == b.chat_id && same(a.workspace, b.workspace)
}

/// Are the same sessions watched?
pub open spec fn same_watches(a: Seq<ChatWatchView>, b: Seq<ChatWatchView>) -> bool {
    a.len() == b.len() && forall|i: int|
        0 <= i < a.len() ==> same_watch(#[trigger] a[i], b[i])
}

/// Are the same sessions watched?
fn equal_watches(a: &Vec<ChatWatch>, b: &Vec<ChatWatch>) -> (r: bool)
    ensures
        r == same_watches(watches_view(a@), watches_view(b@)),
{
    let ghost va = watches_view(a@);
    let ghost vb = watches_view(b@);
    if a.len() != b.len() {
        return false;
    }
    let mut i: usize = 0;
    while i < a.len()
        invariant
            i <= a@.len(),
            a@.len() == b@.len(),
            va == watches_view(a@),
            vb == watches_view(b@),
            forall|j: int| 0 <= j < i ==> same_watch(#[trigger] va[j], vb[j]),
        decreases a.len() - i,
    {
        assert(va[i as int] == a@[i as int]@);
        assert(vb[i as int] == b@[i as int]@);
        if a[i].id != b[i].id || !str_eq(a[i].chat_id.as_str(), b[i].chat_id.as_str())
            || !same_path(a[i].workspace.as_str(), b[i].workspace.as_str()) {
            return false;
        }
        i += 1;
    }
    true
}

/// What is to be watched.
fn watch_list(sessions: &Vec<AgentSession>) -> (r: Vec<ChatWatch>)
    ensures
        watches_view(r@) == watches_of(tabs_view(sessions@)),
{
    let ghost all = tabs_view(sessions@);
    let mut out: Vec<ChatWatch> = Vec::new();
    let mut i: usize = 0;
    assert(watches_view(out@) =~= watches_of(all.take(0)));
    while i < sessions.len()
        invariant
            i <= sessions@.len(),
            all == tabs_view(sessions@),
            watches_view(out@) == watches_of(all.take(i as int)),
        decreases sessions.len() - i,
    {
        let s = &sessions[i];
        let ghost before = watches_view(out@);
        proof {
            assert(all.take(i + 1).drop_last() =~= all.take(i as int));
            assert(all.take(i + 1).last() == s@);
        }
        if !is_empty(s.chat_id.as_str()) {
            let w = ChatWatch {
                id: s.id,
                chat_id: s.chat_id.clone(),
                workspace: s.workspace.clone(),
            };
            let ghost wv = w@;
            out.push(w);
            assert(watches_view(out@) =~= before.push(wv));
        }
        i += 1;
    }
    assert(all.take(i as int) =~= all);
    out
}

/// A copy of a list of watched sessions.
fn copy_watches(v: &Vec<ChatWatch>) -> (r: Vec<ChatWatch>)
    ensures
        watches_view(r@) == watches_view(v@),
{
    let mut out: Vec<ChatWatch> = Vec::new();
    let mut i: usize = 0;
    while i < v.len()
        invariant
            i <= v@.len(),
            out@.len() == i,
            forall|j: int| 0 <= j < i ==> (#[trigger] out@[j])@ == v@[j]@,
        decreases v.len() - i,
    {
        let w = &v[i];
        out.push(
            ChatWatch { id: w.id, chat_id: w.chat_id.clone(), workspace: w.workspace.clone() },
        );
        i += 1;
    }
    assert(watches_view(out@) =~= watches_view(v@));
    out
}

/// Where a workspace stands among those that are folded; how many there are
/// where it does not.
pub open spec fn fold_place(folded: Seq<Seq<char>>, workspace: Seq<char>) -> int
    decreases folded.len(),
{
    if folded.len() == 0 {
        0
    } else if same(folded[0], workspace) {
        0
    } else {
        1 + fold_place(folded.drop_first(), workspace)
    }
}

/// Is a workspace folded?
pub open spec fn is_folded(folded: Seq<Seq<char>>, workspace: Seq<char>) -> bool {
    fold_place(folded, workspace) < folded.len()
}

/// The folded workspaces after one was clicked.
pub open spec fn fold_toggled(folded: Seq<Seq<char>>, workspace: Seq<char>) -> Seq<Seq<char>> {
    if is_folded(folded, workspace) {
        folded.remove(fold_place(folded, workspace))
    } else {
        folded.push(workspace)
    }
}

/// Where a workspace stands among those that are folded.
fn find_fold(folded: &Vec<String>, workspace: &str) -> (r: Option<usize>)
    ensures
        match r {
            Some(k) => k == fold_place(texts(folded@), workspace@) && k < folded@.len(),
            None => !is_folded(texts(folded@), workspace@),
        },
{
    let ghost all = texts(folded@);
    let mut i: usize = 0;
    assert(all.skip(0) =~= all);
    while i < folded.len()
        invariant
            i <= folded@.len(),
            all == texts(folded@),
            fold_place(all, workspace@) == i + fold_place(all.skip(i as int), workspace@),
        decreases folded.len() - i,
    {
        proof {
            assert(all.skip(i as int)[0] == folded@[i as int]@);
            assert(all.skip(i as int).drop_first() =~= all.skip(i + 1));
        }
        if same_path(folded[i].as_str(), workspace) {
            return Some(i);
        }
        i += 1;
    }
    proof {
        assert(all.skip(i as int).len() == 0);
    }
    None
}

/// The manager after the preparation of a session began.
pub open spec fn spawning(v: AppView, draft: DraftView, from_resume: bool) -> AppView {
    AppView {
        spawn_error: None,
        spawn_gen: after(v.spawn_gen),
        pending: Some(PendingView { gen: after(v.spawn_gen), draft, from_resume }),
        ..v
    }
}

/// The manager after the preparation of a session was given up.
pub open spec fn spawn_cancelled(v: AppView) -> AppView {
    AppView { pending: None, spawn_gen: after(v.spawn_gen), ..v }
}

/// The manager after a session could not be started.
pub open spec fn spawn_failed(v: AppView, pending: PendingView, error: Seq<char>) -> AppView {
    AppView {
        spawn_error: Some(error),
        new_dialog: if pending.from_resume {
            v.new_dialog
        } else {
            Some(pending.draft)
        },
        ..v
    }
}

/// Is a preparation the one that is awaited?
pub open spec fn is_awaited(v: AppView, gen: u64) -> bool {
    match v.pending {
        Some(p) => p.gen == gen,
        None => false,
    }
}

/// The manager after a session was prepared, or why it could not be. One that
/// is not awaited changes nothing.
pub open spec fn prepared(v: AppView, gen: u64, result: Result<SpawnView, Seq<char>>) -> AppView {
    match v.pending {
        Some(p) if p.gen == gen => match result {
            Ok(_) => AppView { pending: None, next_id: after(v.next_id), ..v },
            Err(e) => spawn_failed(AppView { pending: None, ..v }, p, e),
        },
        _ => v,
    }
}

/// The manager after the start of a prepared session.
pub open spec fn spawned(
    v: AppView,
    id: u64,
    plan: SpawnView,
    pending: PendingView,
    error: Option<Seq<char>>,
) -> AppView {
    match error {
        None => AppView {
            tabs: v.tabs.push(started(id, plan)),
            active: Some(id),
            new_dialog: None,
            resume: None,
            resume_load: None,
            spawn_error: None,
            ..v
        },
        Some(e) => spawn_failed(v, pending, e),
    }
}

/// What a session of a task is resumed with.
pub open spec fn task_draft(workspace: Seq<char>, chat_id: Seq<char>, title: Seq<char>) -> DraftView {
    DraftView {
        workspace,
        model: ""@,
        prompt: ""@,
        images: Seq::empty(),
        trust: true,
        force: false,
        resume_chat_id: Some(chat_id),
        tab_title: Some(title),
    }
}

/// The first tab of a session.
pub open spec fn tab_of_chat(tabs: Seq<TabView>, chat_id: Seq<char>) -> Option<u64>
    decreases tabs.len(),
{
    if tabs.len() == 0 {
        None
    } else if tabs[0].chat_id == chat_id {
        Some(tabs[0].id)
    } else {
        tab_of_chat(tabs.drop_first(), chat_id)
    }
}

/// The manager after a task was clicked: its tab becomes active where there is
/// one; else it is resumed, unless another session is being prepared.
pub open spec fn task_opened(
    v: AppView,
    workspace: Seq<char>,
    chat_id: Seq<char>,
    title: Seq<char>,
) -> AppView {
    match tab_of_chat(v.tabs, chat_id) {
        Some(id) => AppView { active: Some(id), ..v },
        None => if v.pending is Some {
            v
        } else {
            spawning(v, task_draft(workspace, chat_id, title), true)
        },
    }
}

/// Is a session resumed where a task was clicked?
pub open spec fn task_resumes(v: AppView, chat_id: Seq<char>) -> bool {
    tab_of_chat(v.tabs, chat_id) is None && v.pending is None
}

/// The first tab of a session.
fn find_chat(sessions: &Vec<AgentSession>, chat_id: &str) -> (r: Option<u64>)
    ensures
        r == tab_of_chat(tabs_view(sessions@), chat_id@),
{
    let ghost all = tabs_view(sessions@);
    let mut i: usize = 0;
    assert(all.skip(0) =~= all);
    while i < sessions.len()
        invariant
            i <= sessions@.len(),
            all == tabs_view(sessions@),
            tab_of_chat(all, chat_id@) == tab_of_chat(all.skip(i as int), chat_id@),
        decreases sessions.len() - i,
    {
        proof {
            assert(all.skip(i as int)[0] == sessions@[i as int]@);
            assert(all.skip(i as int).drop_first() =~= all.skip(i + 1));
        }
        if str_eq(sessions[i].chat_id.as_str(), chat_id) {
            return Some(sessions[i].id);
        }
        i += 1;
    }
    None
}

/// The manager with the dialog for a new session, in the workspace of the
/// active session where there is one.
pub open spec fn new_opened(v: AppView, cwd: Option<Seq<char>>) -> AppView {
    AppView {
        new_dialog: Some(
            blank_draft(
                match active_tab(v) {
                    Some(t) => t.workspace,
                    None => match cwd {
                        Some(d) => d,
                        None => "."@,
                    },
                },
            ),
        ),
        resume: None,
        resume_load: None,
        convert: None,
        spawn_error: None,
        ..v
    }
}

/// The manager with the dialog for a past session.
pub open spec fn resume_opened(v: AppView) -> AppView {
    AppView {
        resume: Some(loading_dialog()),
        resume_load: Some(after(v.load_gen)),
        load_gen: after(v.load_gen),
        new_dialog: None,
        convert: None,
        spawn_error: None,
        ..v
    }
}

/// The manager with the dialog for a script.
pub open spec fn convert_opened(v: AppView) -> AppView {
    AppView {
        convert: Some(blank_convert()),
        new_dialog: None,
        resume: None,
        resume_load: None,
        spawn_error: None,
        ..v
    }
}

/// The manager after the past sessions were listed. A listing that is not
/// awaited changes nothing.
pub open spec fn resume_loaded(
    v: AppView,
    gen: u64,
    result: Result<Seq<ChatView>, Seq<char>>,
) -> AppView {
    if v.resume_load == Some(gen) {
        AppView {
            resume_load: None,
            resume: match v.resume {
                Some(d) => Some(reloaded(d, result)),
                None => None,
            },
            ..v
        }
    } else {
        v
    }
}

/// The manager after the user asked to list the past sessions again.
pub open spec fn resume_refreshed(v: AppView) -> AppView {
    match v.resume {
        Some(d) => AppView {
            resume: Some(ResumeView { loading: true, load_error: None, ..d }),
            resume_load: Some(after(v.load_gen)),
            load_gen: after(v.load_gen),
            spawn_error: None,
            ..v
        },
        None => v,
    }
}

/// The manager after the user asked to resume the chosen session.
pub open spec fn resume_clicked(v: AppView) -> AppView {
    match v.resume {
        Some(d) => match resume_draft(d) {
            Ok(draft) => spawning(v, draft, true),
            Err(e) => AppView { spawn_error: Some(e), ..v },
        },
        None => v,
    }
}

/// The manager after the dialog for a past session was left.
pub open spec fn resume_left(v: AppView) -> AppView {
    AppView { resume: None, spawn_error: None, resume_load: None, ..spawn_cancelled(v) }
}

/// The manager after the dialog for a new session was left.
pub open spec fn new_left(v: AppView) -> AppView {
    AppView { new_dialog: None, spawn_error: None, ..spawn_cancelled(v) }
}

/// The manager after a conversion began.
pub open spec fn converting(v: AppView) -> AppView {
    AppView {
        convert_gen: after(v.convert_gen),
        convert: match v.convert {
            Some(d) => Some(ConvertView { converting: true, error: None, ..d }),
            None => None,
        },
        ..v
    }
}

/// The manager after a conversion was given up.
pub open spec fn convert_cancelled(v: AppView) -> AppView {
    AppView {
        convert_gen: after(v.convert_gen),
        convert: match v.convert {
            Some(d) => Some(ConvertView { converting: false, ..d }),
            None => None,
        },
        ..v
    }
}

/// The manager after a script was converted, or why it could not be. A
/// conversion that is not awaited changes nothing.
pub open spec fn converted(v: AppView, gen: u64, result: Result<Seq<char>, Seq<char>>) -> AppView {
    match v.convert {
        Some(d) if gen == v.convert_gen => match result {
            Ok(n) => AppView {
                convert: Some(ConvertView { nushell: n, error: None, converting: false, ..d }),
                history: remembered(v.history, d.bash, n),
                ..v
            },
            Err(e) => AppView {
                convert: Some(ConvertView { error: Some(e), converting: false, ..d }),
                ..v
            },
        },
        _ => v,
    }
}

/// The manager after a converted script was taken up again.
pub open spec fn snippet_restored(v: AppView, i: int) -> AppView {
    match v.convert {
        Some(d) if 0 <= i < v.history.len() => AppView {
            convert: Some(
                ConvertView {
                    bash: v.history[i].bash,
                    nushell: v.history[i].nushell,
                    error: None,
                    ..d
                },
            ),
            ..v
        },
        _ => v,
    }
}

/// The manager after the user named a tab: its title is the name with the first
/// character of each word in upper case. The dialog closes; a tab that is gone
/// is not named.
pub open spec fn rename_applied(v: AppView) -> AppView {
    match v.rename {
        Some(d) => AppView {
            rename: None,
            tabs: if has_tab(v.tabs, d.id) {
                put_tab(
                    v.tabs,
                    d.id,
                    named(tab_with(v.tabs, d.id), title_cased(trimmed(d.draft))),
                )
            } else {
                v.tabs
            },
            ..v
        },
        None => v,
    }
}

/// The manager after all was torn down.
pub open spec fn shut_down(v: AppView) -> AppView {
    AppView {
        tabs: Seq::empty(),
        draining: Seq::empty(),
        active: None,
        watches: Seq::empty(),
        ..spawn_cancelled(v)
    }
}

/// Is a dialog open?
pub open spec fn any_dialog(v: AppView) -> bool {
    v.new_dialog is Some || v.resume is Some || v.rename is Some || v.convert is Some
        || v.auth is Some
}

/// How many tabs have a running agent.
pub open spec fn running_count(tabs: Seq<TabView>) -> nat
    decreases tabs.len(),
{
    if tabs.len() == 0 {
        0
    } else {
        running_count(tabs.drop_last()) + if tabs.last().alive {
            1nat
        } else {
            0nat
        }
    }
}

/// What the header says of the sessions.
pub open spec fn counts_text(v: AppView) -> Seq<char> {
    decimal(running_count(v.tabs)) + "/"@ + decimal(v.tabs.len()) + " running"@
}

/// What the header says of the active session.
pub open spec fn active_text(v: AppView) -> Option<Seq<char>> {
    match active_tab(v) {
        Some(t) => Some("#"@ + decimal(t.id as nat) + " · "@ + t.workspace),
        None => None,
    }
}

impl App {
    /// The manager when it starts.
    pub fn new(cursor_auth_label: String) -> (r: App)
        ensures
            r@ == fresh_app(cursor_auth_label@),
    {
        let r = App {
            next_id: 1,
            sessions: Vec::new(),
            active: None,
            last_chat_watch: Vec::new(),
            new_dialog: None,
            resume_dialog: None,
            rename_dialog: None,
            convert_dialog: None,
            auth_dialog: None,
            spawn_error: None,
            pending_spawn: None,
            spawn_gen: 0,
            resume_load: None,
            load_gen: 0,
            convert_gen: 0,
            convert_history: Vec::new(),
            draining: Vec::new(),
            workspace_folded: Vec::new(),
            pending_auto_auth: true,
            cursor_auth_label,
        };
        proof {
            assert(r@.tabs =~= Seq::empty());
            assert(r@.watches =~= Seq::empty());
            assert(r@.history =~= Seq::empty());
            assert(r@.draining =~= Seq::empty());
            assert(r@.folded =~= Seq::empty());
        }
        r
    }

    /// Is a dialog open?
    pub fn dialog_open(&self) -> (r: bool)
        ensures
            r == any_dialog(self@),
    {
        self.new_dialog.is_some() || self.resume_dialog.is_some() || self.rename_dialog.is_some()
            || self.convert_dialog.is_some() || self.auth_dialog.is_some()
    }

    /// The active session.
    pub fn active_session(&self) -> (r: Option<&AgentSession>)
        ensures
            match r {
                Some(s) => active_tab(self@) == Some(s@),
                None => active_tab(self@) is None,
            },
    {
        match self.active {
            Some(id) => match find_tab(&self.sessions, id) {
                Some(k) => Some(&self.sessions[k]),
                None => None,
            },
            None => None,
        }
    }

    /// Takes in that the agent of a session exited.
    pub fn pty_exit(&mut self, id: u64)
        ensures
            final(self)@ == pty_exited(old(self)@, id),
    {
        self.finish_draining(id);
        if let Some(k) = find_tab(&self.sessions, id) {
            let ghost before = self@.tabs;
            self.sessions[k].mark_exited();
            assert(self@.tabs =~= before.update(k as int, exited(before[k as int])));
        }
    }

    /// Takes in that the terminal of a session took a title.
    pub fn pty_title(&mut self, id: u64, title: String)
        ensures
            final(self)@ == pty_titled(old(self)@, id, title@),
    {
        if let Some(k) = find_tab(&self.sessions, id) {
            let ghost before = self@.tabs;
            let ghost t = title@;
            self.sessions[k].set_terminal_title(title);
            assert(self@.tabs =~= before.update(k as int, terminal_titled(before[k as int], t)));
        }
    }

    /// Takes in what was learned of a session.
    pub fn apply_chat_snapshot(&mut self, id: u64, snap: ChatSnapshot)
        ensures
            final(self)@ == snapped(old(self)@, id, snap@),
    {
        if let Some(k) = find_tab(&self.sessions, id) {
            let ghost before = self@.tabs;
            let ghost sv = snap@;
            let _ = self.sessions[k].poll_chat_state(snap);
            assert(self@.tabs =~= before.update(k as int, refreshed(before[k as int], sv)));
        }
    }

    /// Takes in that the transcript of a session was found.
    pub fn bind_chat(&mut self, id: u64, chat_id: String)
        ensures
            final(self)@ == chat_bound(old(self)@, id, chat_id@),
    {
        if let Some(k) = find_tab(&self.sessions, id) {
            let ghost before = self@.tabs;
            let ghost c = chat_id@;
            if is_empty(self.sessions[k].chat_id.as_str()) {
                self.sessions[k].bind_chat(chat_id);
                assert(self@.tabs =~= before.update(
                    k as int,
                    TabView { chat_id: c, ..before[k as int] },
                ));
            }
        }
    }

    /// The sessions at work whose transcripts are not known yet.
    pub fn unbound_sessions(&self) -> (r: Vec<u64>)
        ensures
            r@ == unbound_of(self@.tabs),
    {
        let ghost all = self@.tabs;
        let mut out: Vec<u64> = Vec::new();
        let mut i: usize = 0;
        assert(out@ =~= unbound_of(all.take(0)));
        while i < self.sessions.len()
            invariant
                i <= self.sessions@.len(),
                all == tabs_view(self.sessions@),
                out@ == unbound_of(all.take(i as int)),
            decreases self.sessions.len() - i,
        {
            let s = &self.sessions[i];
            proof {
                assert(all.take(i + 1).drop_last() =~= all.take(i as int));
                assert(all.take(i + 1).last() == s@);
            }
            if s.alive && is_empty(s.chat_id.as_str()) {
                out.push(s.id);
            }
            i += 1;
        }
        assert(all.take(i as int) =~= all);
        out
    }

    /// Names a tab by the title that past sessions, or else its screen, suggest.
    pub fn auto_rename(
        &mut self,
        id: u64,
        chats: Option<&Vec<KnownChat>>,
        workspace: &str,
        cells: &Vec<ScreenCell>,
    )
        ensures
            final(self)@ == auto_renamed(old(self)@, id, opt_known(chats), workspace@, cells@),
    {
        if let Some(k) = find_tab(&self.sessions, id) {
            let ghost before = self@.tabs;
            self.sessions[k].auto_rename_from_content(chats, workspace, cells);
            assert(self@.tabs =~= before.update(
                k as int,
                auto_named(before[k as int], opt_known(chats), workspace@, cells@),
            ));
        }
    }

    /// Stops waiting for the agent of a closed session.
    pub fn finish_draining(&mut self, id: u64)
        ensures
            final(self)@ == (AppView {
                draining: without_id(old(self)@.draining, id),
                ..old(self)@
            }),
    {
        let ghost all = self.draining@;
        let mut kept: Vec<DrainingPty> = Vec::new();
        let mut i: usize = 0;
        assert(kept@ =~= without_id(all.take(0), id));
        while i < self.draining.len()
            invariant
                i <= self.draining@.len(),
                all == self.draining@,
                self@ == old(self)@,
                kept@ == without_id(all.take(i as int), id),
            decreases self.draining.len() - i,
        {
            let d = self.draining[i];
            proof {
                assert(all.take(i + 1).drop_last() =~= all.take(i as int));
                assert(all.take(i + 1).last() == d);
            }
            if d.id != id {
                kept.push(d);
            }
            i += 1;
        }
        assert(all.take(i as int) =~= all);
        self.draining = kept;
    }

    /// Gives up the closed sessions whose agents have not exited in time, and
    /// hands out their ids. Their terminals are to be leaked.
    pub fn poll_draining_timeouts(&mut self, now_ms: u64) -> (r: Vec<u64>)
        ensures
            r@ == given_up(old(self)@.draining, now_ms),
            final(self)@ == (AppView {
                draining: awaited(old(self)@.draining, now_ms),
                ..old(self)@
            }),
    {
        let ghost all = self.draining@;
        let mut kept: Vec<DrainingPty> = Vec::new();
        let mut out: Vec<u64> = Vec::new();
        let mut i: usize = 0;
        assert(kept@ =~= awaited(all.take(0), now_ms));
        assert(out@ =~= given_up(all.take(0), now_ms));
        while i < self.draining.len()
            invariant
                i <= self.draining@.len(),
                all == self.draining@,
                self@ == old(self)@,
                kept@ == awaited(all.take(i as int), now_ms),
                out@ == given_up(all.take(i as int), now_ms),
            decreases self.draining.len() - i,
        {
            let d = self.draining[i];
            proof {
                assert(all.take(i + 1).drop_last() =~= all.take(i as int));
                assert(all.take(i + 1).last() == d);
            }
            if now_ms >= d.since_ms && now_ms - d.since_ms >= PTY_DRAIN_TIMEOUT_MS {
                out.push(d.id);
            } else {
                kept.push(d);
            }
            i += 1;
        }
        assert(all.take(i as int) =~= all);
        self.draining = kept;
        out
    }

    /// What the poller is to watch from now on, where that has changed.
    pub fn publish_watches(&mut self) -> (r: Option<Vec<ChatWatch>>)
        ensures
            match r {
                Some(w) => !same_watches(watches_of(old(self)@.tabs), old(self)@.watches)
                    && watches_view(w@) == watches_of(old(self)@.tabs) && final(self)@ == (AppView {
                    watches: watches_of(old(self)@.tabs),
                    ..old(self)@
                }),
                None => same_watches(watches_of(old(self)@.tabs), old(self)@.watches)
                    && final(self)@ == old(self)@,
            },
    {
        let w = watch_list(&self.sessions);
        if equal_watches(&w, &self.last_chat_watch) {
            return None;
        }
        self.last_chat_watch = copy_watches(&w);
        Some(w)
    }

    /// Begins to prepare a session. Hands out the number under which its plan
    /// is awaited.
    pub fn begin_spawn(&mut self, draft: NewSessionDraft, from_resume: bool) -> (gen: u64)
        ensures
            final(self)@ == spawning(old(self)@, draft@, from_resume),
            gen == final(self)@.spawn_gen,
    {
        self.spawn_error = None;
        self.spawn_gen = next_gen(self.spawn_gen);
        self.pending_spawn = Some(PendingSpawn { gen: self.spawn_gen, draft, from_resume });
        self.spawn_gen
    }

    /// Gives up the session that is being prepared.
    pub fn cancel_pending_spawn(&mut self)
        ensures
            final(self)@ == spawn_cancelled(old(self)@),
    {
        self.pending_spawn = None;
        self.spawn_gen = next_gen(self.spawn_gen);
    }

    /// Says why a session could not be started, in the dialog that it came from.
    fn restore_spawn_dialog(&mut self, pending: PendingSpawn, error: String)
        ensures
            final(self)@ == spawn_failed(old(self)@, pending@, error@),
    {
        self.spawn_error = Some(error);
        if !pending.from_resume {
            self.new_dialog = Some(pending.draft);
        }
    }

    /// Takes in the plan of a session, or why there is none. Hands out what is
    /// to be started. One that is not awaited changes nothing.
    pub fn drain_pending_spawn(&mut self, gen: u64, result: Result<SpawnPlan, String>) -> (r: Option<
        SpawnStart,
    >)
        requires
            old(self)@.next_id < u64::MAX,
        ensures
            final(self)@ == prepared(old(self)@, gen, spawn_result(result)),
            match r {
                Some(s) => is_awaited(old(self)@, gen) && spawn_result(result) == Ok::<
                    SpawnView,
                    Seq<char>,
                >(s.plan@) && s.id == old(self)@.next_id && old(self)@.pending == Some(s.pending@),
                None => !is_awaited(old(self)@, gen) || result is Err,
            },
    {
        let awaited_one = match &self.pending_spawn {
            Some(p) => p.gen == gen,
            None => false,
        };
        if !awaited_one {
            return None;
        }
        let mut taken: Option<PendingSpawn> = None;
        std::mem::swap(&mut taken, &mut self.pending_spawn);
        match taken {
            None => None,
            Some(pending) => match result {
                Ok(plan) => {
                    let id = self.next_id;
                    self.next_id = id + 1;
                    Some(SpawnStart { id, plan, pending })
                },
                Err(e) => {
                    self.restore_spawn_dialog(pending, e);
                    None
                },
            },
        }
    }

    /// Takes in that a prepared session was started, or why it was not.
    pub fn spawned(&mut self, start: SpawnStart, error: Option<String>)
        ensures
            final(self)@ == spawned(
                old(self)@,
                start.id,
                start.plan@,
                start.pending@,
                opt_text(error),
            ),
    {
        match error {
            None => {
                let ghost before = self@.tabs;
                let session = AgentSession::spawn(start.id, &start.plan);
                self.sessions.push(session);
                assert(self@.tabs =~= before.push(started(start.id, start.plan@)));
                self.active = Some(start.id);
                self.new_dialog = None;
                self.resume_dialog = None;
                self.resume_load = None;
                self.spawn_error = None;
            },
            Some(e) => {
                self.restore_spawn_dialog(start.pending, e);
            },
        }
    }

    /// Closes a session.
    pub fn close_session(&mut self, id: u64, now_ms: u64) -> (r: CloseAction)
        ensures
            final(self)@ == closed(old(self)@, id, now_ms),
            r == close_action(old(self)@, id),
    {
        let mut action = CloseAction::Nothing;
        let ghost before = self@.tabs;
        if let Some(k) = find_tab(&self.sessions, id) {
            let session = self.sessions.remove(k);
            assert(self@.tabs =~= before.remove(k as int));
            assert(session@ == before[k as int]);
            if session.alive {
                self.draining.push(DrainingPty { id, since_ms: now_ms });
                action = CloseAction::Kill;
            } else {
                action = CloseAction::Drop;
            }
        }
        if let Some(a) = self.active {
            if a == id {
                self.active = pick_active(&self.sessions, id);
            }
        }
        action
    }

    /// Tears everything down. The agents of all sessions are to be killed and
    /// their terminals leaked.
    pub fn shutdown_all_sessions(&mut self)
        ensures
            final(self)@ == shut_down(old(self)@),
    {
        self.sessions = Vec::new();
        self.draining = Vec::new();
        self.active = None;
        self.last_chat_watch = Vec::new();
        proof {
            assert(self@.tabs =~= Seq::empty());
            assert(self@.watches =~= Seq::empty());
            assert(self@.draining =~= Seq::empty());
        }
        self.cancel_pending_spawn();
    }

    /// Shows the tab of a task, or resumes its session. Hands out the number
    /// under which its plan is awaited, and what it is resumed with.
    pub fn open_or_focus_task(&mut self, workspace: &str, chat_id: &str, title: &str) -> (r: Option<
        (u64, NewSessionDraft),
    >)
        ensures
            final(self)@ == task_opened(old(self)@, workspace@, chat_id@, title@),
            match r {
                Some((gen, draft)) => task_resumes(old(self)@, chat_id@) && gen
                    == final(self)@.spawn_gen && draft@ == task_draft(
                    workspace@,
                    chat_id@,
                    title@,
                ),
                None => !task_resumes(old(self)@, chat_id@),
            },
    {
        if let Some(id) = find_chat(&self.sessions, chat_id) {
            self.active = Some(id);
            return None;
        }
        if self.pending_spawn.is_some() {
            return None;
        }
        let draft = NewSessionDraft {
            workspace: workspace.to_owned(),
            model: "".to_owned(),
            prompt: "".to_owned(),
            images: Vec::new(),
            trust: true,
            force: false,
            resume_chat_id: Some(chat_id.to_owned()),
            tab_title: Some(title.to_owned()),
        };
        assert(texts(draft.images@) =~= Seq::empty());
        let gen = self.begin_spawn(draft.copy(), true);
        Some((gen, draft))
    }

    /// Makes a session active, where there is one.
    pub fn select(&mut self, id: u64)
        ensures
            final(self)@ == if has_tab(old(self)@.tabs, id) {
                AppView { active: Some(id), ..old(self)@ }
            } else {
                old(self)@
            },
    {
        if find_tab(&self.sessions, id).is_some() {
            self.active = Some(id);
        }
    }

    /// Hides or shows the tasks of a session.
    pub fn toggle_tasks_fold(&mut self, id: u64)
        ensures
            final(self)@ == tasks_toggled(old(self)@, id),
    {
        if let Some(k) = find_tab(&self.sessions, id) {
            let ghost before = self@.tabs;
            self.sessions[k].tasks_folded = !self.sessions[k].tasks_folded;
            assert(self@.tabs =~= before.update(
                k as int,
                TabView {
                    tasks_folded: !before[k as int].tasks_folded,
                    ..before[k as int]
                },
            ));
        }
    }

    /// Are the sessions of a workspace hidden?
    pub fn workspace_is_folded(&self, workspace: &str) -> (r: bool)
        ensures
            r == is_folded(self@.folded, workspace@),
    {
        find_fold(&self.workspace_folded, workspace).is_some()
    }

    /// Hides or shows the sessions of a workspace.
    pub fn toggle_workspace_fold(&mut self, workspace: &str)
        ensures
            final(self)@ == (AppView {
                folded: fold_toggled(old(self)@.folded, workspace@),
                ..old(self)@
            }),
    {
        let ghost before = self@.folded;
        match find_fold(&self.workspace_folded, workspace) {
            Some(k) => {
                let _ = self.workspace_folded.remove(k);
                assert(self@.folded =~= before.remove(k as int));
            },
            None => {
                self.workspace_folded.push(workspace.to_owned());
                assert(self@.folded =~= before.push(workspace@));
            },
        }
    }

    /// Opens the dialog for a new session.
    pub fn open_new_dialog(&mut self, cwd: Option<&str>)
        ensures
            final(self)@ == new_opened(old(self)@, opt_view(cwd)),
    {
        let draft = match self.active_session() {
            Some(s) => NewSessionDraft::in_directory(Some(s.workspace.as_str())),
            None => NewSessionDraft::in_directory(cwd),
        };
        self.new_dialog = Some(draft);
        self.resume_dialog = None;
        self.resume_load = None;
        self.convert_dialog = None;
        self.spawn_error = None;
    }

    /// Opens the dialog for a past session. Hands out the number under which
    /// the listing of past sessions is awaited.
    pub fn open_resume_dialog(&mut self) -> (gen: u64)
        ensures
            final(self)@ == resume_opened(old(self)@),
            gen == final(self)@.load_gen,
    {
        self.resume_dialog = Some(ResumeDialog::loading());
        self.new_dialog = None;
        self.convert_dialog = None;
        self.spawn_error = None;
        self.load_gen = next_gen(self.load_gen);
        self.resume_load = Some(self.load_gen);
        self.load_gen
    }

    /// Opens the dialog for a script.
    pub fn open_convert_dialog(&mut self)
        ensures
            final(self)@ == convert_opened(old(self)@),
    {
        self.convert_dialog = Some(ConvertDialog::default());
        self.new_dialog = None;
        self.resume_dialog = None;
        self.resume_load = None;
        self.spawn_error = None;
    }

    /// Opens the dialog for signing in.
    pub fn open_auth_dialog(
        &mut self,
        config: &OidcLoginConfig,
        address: String,
        stored: String,
        has_key: bool,
    )
        ensures
            final(self)@ == (AppView {
                auth: Some(auth_dialog_for(config@, address@, stored@, has_key)),
                ..old(self)@
            }),
    {
        self.auth_dialog = Some(AuthDialog::open(config, address, stored, has_key));
    }

    /// Takes in the past sessions, or why they could not be listed.
    pub fn drain_resume_load(&mut self, gen: u64, result: Result<Vec<SavedChat>, String>)
        ensures
            final(self)@ == resume_loaded(old(self)@, gen, load_result(result)),
    {
        let awaited_one = match self.resume_load {
            Some(g) => g == gen,
            None => false,
        };
        if awaited_one {
            self.resume_load = None;
            if let Some(d) = &mut self.resume_dialog {
                d.reload(result);
            }
        }
    }

    /// Lists the past sessions again. Hands out the number under which the
    /// listing is awaited.
    pub fn refresh_resume(&mut self) -> (r: Option<u64>)
        ensures
            final(self)@ == resume_refreshed(old(self)@),
            match r {
                Some(gen) => old(self)@.resume is Some && gen == final(self)@.load_gen,
                None => old(self)@.resume is None,
            },
    {
        match &mut self.resume_dialog {
            None => None,
            Some(d) => {
                d.loading = true;
                d.load_error = None;
                self.spawn_error = None;
                self.load_gen = next_gen(self.load_gen);
                self.resume_load = Some(self.load_gen);
                Some(self.load_gen)
            },
        }
    }

    /// Resumes the chosen session. Hands out the number under which its plan is
    /// awaited, and what it is resumed with.
    pub fn resume_selected(&mut self) -> (r: Option<(u64, NewSessionDraft)>)
        ensures
            final(self)@ == resume_clicked(old(self)@),
            match r {
                Some((gen, draft)) => old(self)@.resume is Some && resume_draft(
                    old(self)@.resume->0,
                ) == Ok::<DraftView, Seq<char>>(draft@) && gen == final(self)@.spawn_gen,
                None => match old(self)@.resume {
                    Some(d) => resume_draft(d) is Err,
                    None => true,
                },
            },
    {
        let result = match &self.resume_dialog {
            Some(d) => d.to_draft(),
            None => return None,
        };
        match result {
            Ok(draft) => {
                let gen = self.begin_spawn(draft.copy(), true);
                Some((gen, draft))
            },
            Err(e) => {
                self.spawn_error = Some(e);
                None
            },
        }
    }

    /// Leaves the dialog for a past session.
    pub fn cancel_resume(&mut self)
        ensures
            final(self)@ == resume_left(old(self)@),
    {
        self.spawn_error = None;
        self.resume_load = None;
        self.cancel_pending_spawn();
        self.resume_dialog = None;
    }

    /// Starts the session that the dialog describes. Hands out the number under
    /// which its plan is awaited, and what it is started with.
    pub fn spawn_new(&mut self) -> (r: Option<(u64, NewSessionDraft)>)
        ensures
            match old(self)@.new_dialog {
                Some(d) => final(self)@ == spawning(old(self)@, d, false),
                None => final(self)@ == old(self)@,
            },
            match r {
                Some((gen, draft)) => old(self)@.new_dialog == Some(draft@) && gen
                    == final(self)@.spawn_gen,
                None => old(self)@.new_dialog is None,
            },
    {
        let (draft, kept) = match &self.new_dialog {
            Some(d) => (d.copy(), d.copy()),
            None => return None,
        };
        let gen = self.begin_spawn(kept, false);
        Some((gen, draft))
    }

    /// Leaves the dialog for a new session. Hands out the images that were
    /// pasted into it: their files are to be deleted.
    pub fn cancel_new(&mut self) -> (r: Vec<String>)
        ensures
            final(self)@ == new_left(old(self)@),
            texts(r@) == match old(self)@.new_dialog {
                Some(d) => d.images,
                None => Seq::empty(),
            },
    {
        self.spawn_error = None;
        self.cancel_pending_spawn();
        let mut taken: Option<NewSessionDraft> = None;
        std::mem::swap(&mut taken, &mut self.new_dialog);
        match taken {
            Some(d) => d.images,
            None => {
                let none: Vec<String> = Vec::new();
                assert(texts(none@) =~= Seq::empty());
                none
            },
        }
    }

    /// Adds a pasted image to the dialog for a new session.
    pub fn attach_image(&mut self, path: String)
        ensures
            final(self)@ == match old(self)@.new_dialog {
                Some(d) => (AppView {
                    new_dialog: Some(DraftView { images: d.images.push(path@), ..d }),
                    ..old(self)@
                }),
                None => old(self)@,
            },
    {
        if let Some(d) = &mut self.new_dialog {
            let ghost before = texts(d.images@);
            let ghost p = path@;
            d.images.push(path);
            assert(texts(d.images@) =~= before.push(p));
        }
    }

    /// Removes an image from the dialog for a new session.
    pub fn detach_image(&mut self, i: usize) -> (r: Option<String>)
        ensures
            match old(self)@.new_dialog {
                Some(d) if i < d.images.len() => opt_text(r) == Some(d.images[i as int])
                    && final(self)@ == (AppView {
                    new_dialog: Some(DraftView { images: d.images.remove(i as int), ..d }),
                    ..old(self)@
                }),
                _ => r is None && final(self)@ == old(self)@,
            },
    {
        if let Some(d) = &mut self.new_dialog {
            let ghost before = texts(d.images@);
            if i < d.images.len() {
                let path = d.images.remove(i);
                assert(texts(d.images@) =~= before.remove(i as int));
                return Some(path);
            }
        }
        None
    }

    /// Converts the script in the dialog. Hands out the number under which the
    /// result is awaited, and the script.
    pub fn begin_convert(&mut self) -> (r: Option<(u64, String)>)
        ensures
            match old(self)@.convert {
                Some(d) => final(self)@ == converting(old(self)@),
                None => final(self)@ == old(self)@,
            },
            match r {
                Some((gen, bash)) => old(self)@.convert is Some && bash@
                    == old(self)@.convert->0.bash && gen == final(self)@.convert_gen,
                None => old(self)@.convert is None,
            },
    {
        match &mut self.convert_dialog {
            None => None,
            Some(d) => {
                d.converting = true;
                d.error = None;
                let bash = d.bash.clone();
                self.convert_gen = next_gen(self.convert_gen);
                Some((self.convert_gen, bash))
            },
        }
    }

    /// Gives up a conversion.
    pub fn cancel_convert(&mut self)
        ensures
            final(self)@ == convert_cancelled(old(self)@),
    {
        self.convert_gen = next_gen(self.convert_gen);
        if let Some(d) = &mut self.convert_dialog {
            d.converting = false;
        }
    }

    /// Leaves the dialog for a script.
    pub fn close_convert(&mut self)
        ensures
            final(self)@ == (AppView { convert: None, ..convert_cancelled(old(self)@) }),
    {
        self.cancel_convert();
        self.convert_dialog = None;
    }

    /// Takes in a converted script, or why it could not be converted.
    pub fn drain_convert(&mut self, gen: u64, result: Result<String, String>)
        ensures
            final(self)@ == converted(
                old(self)@,
                gen,
                match result {
                    Ok(n) => Ok(n@),
                    Err(e) => Err(e@),
                },
            ),
    {
        if gen != self.convert_gen {
            return;
        }
        let mut pushed: Option<(String, String)> = None;
        if let Some(d) = &mut self.convert_dialog {
            d.converting = false;
            match result {
                Ok(n) => {
                    d.error = None;
                    d.nushell = n.clone();
                    pushed = Some((d.bash.clone(), n));
                },
                Err(e) => {
                    d.error = Some(e);
                },
            }
        }
        if let Some((bash, nushell)) = pushed {
            push_convert_history(
                &mut self.convert_history,
                bash.as_str(),
                nushell.as_str(),
            );
        }
    }

    /// Takes up a converted script again.
    pub fn restore_snippet(&mut self, i: usize)
        ensures
            final(self)@ == snippet_restored(old(self)@, i as int),
    {
        if i < self.convert_history.len() {
            assert(self@.history[i as int] == self.convert_history@[i as int]@);
            let bash = self.convert_history[i].bash.clone();
            let nushell = self.convert_history[i].nushell.clone();
            if let Some(d) = &mut self.convert_dialog {
                d.bash = bash;
                d.nushell = nushell;
                d.error = None;
            }
        }
    }

    /// Forgets the converted scripts.
    pub fn clear_history(&mut self)
        ensures
            final(self)@ == (AppView { history: Seq::empty(), ..old(self)@ }),
    {
        self.convert_history = Vec::new();
        assert(self@.history =~= Seq::empty());
    }

    /// Opens the dialog for naming a tab.
    pub fn open_rename_dialog(&mut self, id: u64)
        ensures
            final(self)@ == if has_tab(old(self)@.tabs, id) {
                AppView {
                    rename: Some(rename_dialog_for(id, tab_with(old(self)@.tabs, id).title)),
                    ..old(self)@
                }
            } else {
                old(self)@
            },
    {
        if let Some(k) = find_tab(&self.sessions, id) {
            let d = RenameDialog::for_tab(id, self.sessions[k].title.as_str());
            self.rename_dialog = Some(d);
        }
    }

    /// Leaves the dialog for naming a tab where the tab is gone.
    pub fn check_rename(&mut self)
        ensures
            final(self)@ == match old(self)@.rename {
                Some(d) if !has_tab(old(self)@.tabs, d.id) => (AppView {
                    rename: None,
                    ..old(self)@
                }),
                _ => old(self)@,
            },
    {
        let gone = match &self.rename_dialog {
            Some(d) => find_tab(&self.sessions, d.id).is_none(),
            None => false,
        };
        if gone {
            self.rename_dialog = None;
        }
    }

    /// Names the tab.
    pub fn apply_rename(&mut self)
        ensures
            final(self)@ == rename_applied(old(self)@),
    {
        let mut taken: Option<RenameDialog> = None;
        std::mem::swap(&mut taken, &mut self.rename_dialog);
        if let Some(d) = taken {
            if let Some(k) = find_tab(&self.sessions, d.id) {
                let ghost before = self@.tabs;
                let title = title_case_words(trim(d.draft.as_str()));
                self.sessions[k].set_user_title(title.as_str());
                assert(self@.tabs =~= before.update(
                    k as int,
                    named(before[k as int], title_cased(trimmed(d@.draft))),
                ));
            }
        }
    }

    /// Leaves the dialog for naming a tab.
    pub fn cancel_rename(&mut self)
        ensures
            final(self)@ == (AppView { rename: None, ..old(self)@ }),
    {
        self.rename_dialog = None;
    }

    /// Leaves the dialog for signing in. A sign-in in the browser is to be ended.
    pub fn close_auth(&mut self)
        ensures
            final(self)@ == (AppView { auth: None, ..old(self)@ }),
    {
        self.auth_dialog = None;
    }

    /// Is the stored token to be tried now? Only once.
    pub fn take_auto_auth(&mut self) -> (r: bool)
        ensures
            r == old(self)@.pending_auto_auth,
            final(self)@ == (AppView { pending_auto_auth: false, ..old(self)@ }),
    {
        let r = self.pending_auto_auth;
        self.pending_auto_auth = false;
        r
    }

    /// What the header says of the sessions.
    pub fn counts_label(&self) -> (r: String)
        ensures
            r@ == counts_text(self@),
    {
        let ghost all = self@.tabs;
        let mut running: usize = 0;
        let mut i: usize = 0;
        while i < self.sessions.len()
            invariant
                i <= self.sessions@.len(),
                running <= i,
                all == tabs_view(self.sessions@),
                running == running_count(all.take(i as int)),
            decreases self.sessions.len() - i,
        {
            proof {
                assert(all.take(i + 1).drop_last() =~= all.take(i as int));
                assert(all.take(i + 1).last() == self.sessions@[i as int]@);
            }
            if self.sessions[i].alive {
                running += 1;
            }
            i += 1;
        }
        assert(all.take(i as int) =~= all);
        let of = concat3(
            to_decimal(running as u64).as_str(),
            "/",
            to_decimal(self.sessions.len() as u64).as_str(),
        );
        concat(of.as_str(), " running")
    }

    /// What the header says of the active session.
    pub fn active_label(&self) -> (r: Option<String>)
        ensures
            opt_text(r) == active_text(self@),
    {
        match self.active_session() {
            Some(s) => {
                let id = concat3("#", to_decimal(s.id).as_str(), " · ");
                Some(concat(id.as_str(), s.workspace.as_str()))
            },
            None => None,
        }
    }

    /// What the button for signing in says.
    pub fn auth_button(&self, has_key: bool) -> (r: String)
        ensures
            r@ == if has_key {
                self@.auth_label
            } else {
                "Cursor: sign in"@
            },
    {
        if has_key {
            self.cursor_auth_label.clone()
        } else {
            "Cursor: sign in".to_owned()
        }
    }
}

/// Do the ids of the tabs grow, all below `bound`?
pub open spec fn ids_grow(tabs: Seq<TabView>, bound: u64) -> bool {
    &&& forall|i: int, j: int|
        0 <= i < j < tabs.len() ==> (#[trigger] tabs[i]).id < (#[trigger] tabs[j]).id
    &&& forall|i: int| 0 <= i < tabs.len() ==> (#[trigger] tabs[i]).id < bound
}

/// Is no workspace folded twice?
pub open spec fn folded_once(folded: Seq<Seq<char>>) -> bool {
    forall|i: int, j: int|
        0 <= i < j < folded.len() ==> !same(#[trigger] folded[i], #[trigger] folded[j])
}

/// What always holds of the manager: the ids of its tabs grow and are not given
/// out again, the active tab is one of them, only the latest preparation and the
/// latest listing are awaited, and the history is bounded.
pub open spec fn sound(v: AppView) -> bool {
    &&& ids_grow(v.tabs, v.next_id)
    &&& v.active matches Some(id) ==> has_tab(v.tabs, id)
    &&& v.pending matches Some(p) ==> p.gen == v.spawn_gen
    &&& v.resume_load matches Some(g) ==> g == v.load_gen
    &&& history_holds(v.history)
    &&& folded_once(v.folded)
}

/// A tab stands where its id is.
proof fn lemma_place_is(tabs: Seq<TabView>, k: int, bound: u64)
    requires
        ids_grow(tabs, bound),
        0 <= k < tabs.len(),
    ensures
        place_of(tabs, tabs[k].id) == k,
        has_tab(tabs, tabs[k].id),
{
    let id = tabs[k].id;
    lemma_place(tabs, id);
    let p = place_of(tabs, id);
    if p < k {
        assert(tabs[p].id < tabs[k].id);
    }
}

/// Tabs that keep their ids keep their places.
proof fn lemma_same_places(a: Seq<TabView>, b: Seq<TabView>, id: u64)
    requires
        a.len() == b.len(),
        forall|i: int| 0 <= i < a.len() ==> (#[trigger] a[i]).id == b[i].id,
    ensures
        place_of(a, id) == place_of(b, id),
    decreases a.len(),
{
    if a.len() > 0 {
        let ta = a.drop_first();
        let tb = b.drop_first();
        assert forall|i: int| 0 <= i < ta.len() implies (#[trigger] ta[i]).id == tb[i].id by {
            assert(ta[i] == a[i + 1]);
            assert(tb[i] == b[i + 1]);
        }
        assert(a[0].id == b[0].id);
        lemma_same_places(ta, tb, id);
    }
}

/// Changing what a tab shows keeps the manager sound.
proof fn lemma_put_tab(v: AppView, id: u64, t: TabView)
    requires
        sound(v),
        has_tab(v.tabs, id),
        t.id == id,
    ensures
        sound(AppView { tabs: put_tab(v.tabs, id, t), ..v }),
{
    lemma_place(v.tabs, id);
    let w = put_tab(v.tabs, id, t);
    assert(forall|i: int| 0 <= i < w.len() ==> (#[trigger] w[i]).id == v.tabs[i].id);
    if let Some(a) = v.active {
        lemma_same_places(w, v.tabs, a);
    }
}

/// The manager is sound when it starts.
pub proof fn law_fresh_manager_is_sound(label: Seq<char>)
    ensures
        sound(fresh_app(label)),
{
}

/// What the terminals, the poller and the user report of a tab keeps the
/// manager sound.
pub proof fn law_tab_events_keep_sound(
    v: AppView,
    id: u64,
    title: Seq<char>,
    snap: SnapshotView,
    chats: Option<Seq<KnownView>>,
    workspace: Seq<char>,
    cells: Seq<ScreenCell>,
)
    requires
        sound(v),
    ensures
        sound(pty_exited(v, id)),
        sound(pty_titled(v, id, title)),
        sound(snapped(v, id, snap)),
        sound(tasks_toggled(v, id)),
        sound(chat_bound(v, id, title)),
        sound(auto_renamed(v, id, chats, workspace, cells)),
        sound(rename_applied(v)),
{
    lemma_place(v.tabs, id);
    if has_tab(v.tabs, id) {
        let t = tab_with(v.tabs, id);
        lemma_put_tab(v, id, exited(t));
        lemma_put_tab(v, id, terminal_titled(t, title));
        lemma_put_tab(v, id, refreshed(t, snap));
        lemma_put_tab(v, id, TabView { tasks_folded: !t.tasks_folded, ..t });
        lemma_put_tab(v, id, TabView { chat_id: title, ..t });
        lemma_put_tab(v, id, auto_named(t, chats, workspace, cells));
    }
    if let Some(d) = v.rename {
        if has_tab(v.tabs, d.id) {
            lemma_place(v.tabs, d.id);
            lemma_put_tab(
                v,
                d.id,
                named(tab_with(v.tabs, d.id), title_cased(trimmed(d.draft))),
            );
        }
    }
}

/// What the dialogs do keeps the manager sound.
pub proof fn law_dialogs_keep_sound(
    v: AppView,
    gen: u64,
    cwd: Option<Seq<char>>,
    listed: Result<Seq<ChatView>, Seq<char>>,
    script: Result<Seq<char>, Seq<char>>,
    i: int,
)
    requires
        sound(v),
    ensures
        sound(new_opened(v, cwd)),
        sound(resume_opened(v)),
        sound(convert_opened(v)),
        sound(resume_loaded(v, gen, listed)),
        sound(resume_refreshed(v)),
        sound(resume_clicked(v)),
        sound(resume_left(v)),
        sound(new_left(v)),
        sound(converting(v)),
        sound(convert_cancelled(v)),
        sound(converted(v, gen, script)),
        sound(snippet_restored(v, i)),
        sound(shut_down(v)),
{
    if let Some(d) = v.convert {
        if let Ok(n) = script {
            law_history_is_bounded(v.history, d.bash, n);
        }
    }
}

/// A session that is prepared and started gets an id that no session had, its
/// tab becomes active, and the manager stays sound; so it does where the
/// preparation or the start fails.
pub proof fn law_spawn_keeps_sound(
    v: AppView,
    draft: DraftView,
    from_resume: bool,
    gen: u64,
    plan: SpawnView,
    error: Seq<char>,
)
    requires
        sound(v),
        v.next_id < u64::MAX,
    ensures
        sound(spawning(v, draft, from_resume)),
        sound(spawn_cancelled(v)),
        sound(prepared(v, gen, Err(error))),
        is_awaited(v, gen) ==> {
            let w = prepared(v, gen, Ok(plan));
            let s = spawned(w, v.next_id, plan, v.pending->0, None);
            &&& sound(w)
            &&& sound(spawned(w, v.next_id, plan, v.pending->0, Some(error)))
            &&& sound(s)
            &&& !has_tab(v.tabs, v.next_id)
            &&& active_tab(s) == Some(started(v.next_id, plan))
        },
{
    if is_awaited(v, gen) {
        let w = prepared(v, gen, Ok(plan));
        let s = spawned(w, v.next_id, plan, v.pending->0, None);
        lemma_place(v.tabs, v.next_id);
        if has_tab(v.tabs, v.next_id) {
            assert(v.tabs[place_of(v.tabs, v.next_id)].id < v.next_id);
        }
        if let Some(a) = v.active {
            lemma_place(v.tabs, a);
            let k = place_of(v.tabs, a);
            assert(w.tabs[k].id == a);
        }
        assert(s.tabs[v.tabs.len() as int] == started(v.next_id, plan));
        assert forall|i: int, j: int| 0 <= i < j < s.tabs.len() implies (#[trigger] s.tabs[i]).id
            < (#[trigger] s.tabs[j]).id by {
            assert(s.tabs[i] == v.tabs[i]);
            if j < v.tabs.len() {
                assert(s.tabs[j] == v.tabs[j]);
            }
        }
        assert forall|i: int| 0 <= i < s.tabs.len() implies (#[trigger] s.tabs[i]).id
            < s.next_id by {
            if i < v.tabs.len() {
                assert(s.tabs[i] == v.tabs[i]);
            }
        }
        lemma_place_is(s.tabs, v.tabs.len() as int, s.next_id);
    }
}

/// What the last tab below an id is, where the ids grow.
proof fn lemma_last_below(tabs: Seq<TabView>, id: u64, bound: u64)
    requires
        ids_grow(tabs, bound),
    ensures
        match last_below(tabs, id) {
            Some(a) => a < id && has_tab(tabs, a) && forall|i: int|
                0 <= i < tabs.len() && (#[trigger] tabs[i]).id < id ==> tabs[i].id <= a,
            None => forall|i: int| 0 <= i < tabs.len() ==> (#[trigger] tabs[i]).id >= id,
        },
    decreases tabs.len(),
{
    if tabs.len() > 0 {
        let last = tabs.len() - 1;
        if tabs[last].id < id {
            lemma_place_is(tabs, last, bound);
            assert forall|i: int| 0 <= i < tabs.len() && (#[trigger] tabs[i]).id < id implies tabs[i].id
                <= tabs[last].id by {
                if i < last {
                    assert(tabs[i].id < tabs[last].id);
                }
            }
        } else {
            let t = tabs.drop_last();
            assert(ids_grow(t, bound));
            lemma_last_below(t, id, bound);
            if let Some(a) = last_below(t, id) {
                lemma_place(t, a);
                let k = place_of(t, a);
                assert(tabs[k] == t[k]);
                lemma_place_is(tabs, k, bound);
            }
            assert forall|i: int| 0 <= i < tabs.len() implies (#[trigger] tabs[i]).id >= id
                || last_below(t, id) is Some by {
                if i < last {
                    assert(tabs[i] == t[i]);
                }
            }
            assert forall|i: int| 0 <= i < tabs.len() && (#[trigger] tabs[i]).id < id
                && last_below(t, id) is Some implies tabs[i].id <= last_below(t, id)->0 by {
                assert(i < last);
                assert(tabs[i] == t[i]);
            }
        }
    }
}

/// Closing a session keeps the manager sound and removes its tab. Where the
/// active tab is closed, the tab before it becomes active; where there is none
/// before it, the first; where there is none at all, none.
pub proof fn law_close_activates_neighbour(v: AppView, id: u64, now_ms: u64)
    requires
        sound(v),
    ensures
        sound(closed(v, id, now_ms)),
        !has_tab(closed(v, id, now_ms).tabs, id),
        v.active != Some(id) ==> closed(v, id, now_ms).active == v.active,
        v.active == Some(id) ==> {
            let w = closed(v, id, now_ms);
            match w.active {
                None => w.tabs.len() == 0,
                Some(a) => {
                    &&& has_tab(w.tabs, a)
                    &&& forall|i: int|
                        0 <= i < w.tabs.len() && (#[trigger] w.tabs[i]).id < id ==> w.tabs[i].id <= a
                            && a < id
                    &&& (forall|i: int| 0 <= i < w.tabs.len() ==> (#[trigger] w.tabs[i]).id >= id)
                        ==> a == w.tabs[0].id && forall|i: int|
                        0 <= i < w.tabs.len() ==> a <= (#[trigger] w.tabs[i]).id
                },
            }
        },
{
    let w = closed(v, id, now_ms);
    lemma_place(v.tabs, id);
    let k = place_of(v.tabs, id);
    if has_tab(v.tabs, id) {
        assert(ids_grow(w.tabs, w.next_id)) by {
            assert forall|i: int, j: int| 0 <= i < j < w.tabs.len() implies (
            #[trigger] w.tabs[i]).id < (#[trigger] w.tabs[j]).id by {
                let oi = if i < k { i } else { i + 1 };
                let oj = if j < k { j } else { j + 1 };
                assert(w.tabs[i] == v.tabs[oi]);
                assert(w.tabs[j] == v.tabs[oj]);
            }
            assert forall|i: int| 0 <= i < w.tabs.len() implies (#[trigger] w.tabs[i]).id
                < w.next_id by {
                let oi = if i < k { i } else { i + 1 };
                assert(w.tabs[i] == v.tabs[oi]);
            }
        }
    }
    assert(!has_tab(w.tabs, id)) by {
        lemma_place(w.tabs, id);
        if has_tab(w.tabs, id) && has_tab(v.tabs, id) {
            let p = place_of(w.tabs, id);
            let op = if p < k { p } else { p + 1 };
            assert(w.tabs[p] == v.tabs[op]);
            if op < k {
                assert(v.tabs[op].id < v.tabs[k].id);
            } else {
                assert(v.tabs[k].id < v.tabs[op].id);
            }
        }
    }
    lemma_last_below(w.tabs, id, w.next_id);
    if v.active == Some(id) {
        if last_below(w.tabs, id) is None && w.tabs.len() > 0 {
            lemma_place_is(w.tabs, 0, w.next_id);
            assert forall|i: int| 0 <= i < w.tabs.len() implies w.tabs[0].id <= (
            #[trigger] w.tabs[i]).id by {
                if i > 0 {
                    assert(w.tabs[0].id < w.tabs[i].id);
                }
            }
        } else if let Some(a) = last_below(w.tabs, id) {
            lemma_place(w.tabs, a);
            assert(w.tabs[place_of(w.tabs, a)].id < id);
        }
    } else if let Some(a) = v.active {
        if has_tab(v.tabs, id) {
            lemma_place(v.tabs, a);
            let p = place_of(v.tabs, a);
            let np = if p < k { p } else { p - 1 };
            assert(w.tabs[np] == v.tabs[p]);
            lemma_place_is(w.tabs, np, w.next_id);
        }
    }
}

/// Selecting a session, opening a task and folding keep the manager sound.
pub proof fn law_sidebar_keeps_sound(
    v: AppView,
    id: u64,
    workspace: Seq<char>,
    chat_id: Seq<char>,
    title: Seq<char>,
)
    requires
        sound(v),
    ensures
        has_tab(v.tabs, id) ==> sound(AppView { active: Some(id), ..v }),
        sound(task_opened(v, workspace, chat_id, title)),
        sound(AppView { folded: fold_toggled(v.folded, workspace), ..v }),
{
    lemma_tab_of_chat(v.tabs, chat_id);
    if let Some(t) = tab_of_chat(v.tabs, chat_id) {
        let k = choose|k: int| 0 <= k < v.tabs.len() && (#[trigger] v.tabs[k]).id == t;
        lemma_place_is(v.tabs, k, v.next_id);
    }
    lemma_fold_toggled(v.folded, workspace);
}

/// The tab that is found for a session is one of the tabs.
proof fn lemma_tab_of_chat(tabs: Seq<TabView>, chat_id: Seq<char>)
    ensures
        tab_of_chat(tabs, chat_id) matches Some(id) ==> exists|k: int|
            0 <= k < tabs.len() && (#[trigger] tabs[k]).id == id,
    decreases tabs.len(),
{
    if tabs.len() > 0 {
        if tabs[0].chat_id != chat_id {
            let t = tabs.drop_first();
            lemma_tab_of_chat(t, chat_id);
            if let Some(id) = tab_of_chat(t, chat_id) {
                let k = choose|k: int| 0 <= k < t.len() && (#[trigger] t[k]).id == id;
                assert(tabs[k + 1] == t[k]);
            }
        } else {
            assert(tabs[0].id == tabs[0].id);
        }
    }
}

/// What is known of the place of a folded workspace.
proof fn lemma_fold_place(folded: Seq<Seq<char>>, workspace: Seq<char>)
    ensures
        0 <= fold_place(folded, workspace) <= folded.len(),
        is_folded(folded, workspace) ==> same(
            folded[fold_place(folded, workspace)],
            workspace,
        ),
        forall|i: int|
            0 <= i < fold_place(folded, workspace) ==> !same(#[trigger] folded[i], workspace),
    decreases folded.len(),
{
    if folded.len() > 0 && !same(folded[0], workspace) {
        let t = folded.drop_first();
        lemma_fold_place(t, workspace);
        assert forall|i: int| 0 <= i < fold_place(folded, workspace) implies !same(
            #[trigger] folded[i],
            workspace,
        ) by {
            if i > 0 {
                assert(folded[i] == t[i - 1]);
            }
        }
    }
}

/// A workspace is folded where it is one of the folded ones.
proof fn lemma_is_folded(folded: Seq<Seq<char>>, workspace: Seq<char>, k: int)
    requires
        0 <= k < folded.len(),
        same(folded[k], workspace),
    ensures
        is_folded(folded, workspace),
{
    lemma_fold_place(folded, workspace);
    if fold_place(folded, workspace) == folded.len() {
        assert(!same(folded[k], workspace));
    }
}

/// Folding keeps each workspace folded at most once.
proof fn lemma_fold_toggled(folded: Seq<Seq<char>>, workspace: Seq<char>)
    requires
        folded_once(folded),
    ensures
        folded_once(fold_toggled(folded, workspace)),
{
    lemma_fold_place(folded, workspace);
    let k = fold_place(folded, workspace);
    let w = fold_toggled(folded, workspace);
    assert forall|i: int, j: int| 0 <= i < j < w.len() implies !same(
        #[trigger] w[i],
        #[trigger] w[j],
    ) by {
        if is_folded(folded, workspace) {
            let oi = if i < k { i } else { i + 1 };
            let oj = if j < k { j } else { j + 1 };
            assert(w[i] == folded[oi]);
            assert(w[j] == folded[oj]);
        } else {
            assert(w[i] == folded[i]);
            if j < folded.len() {
                assert(w[j] == folded[j]);
            }
        }
    }
}

/// A click on a workspace folds or unfolds that workspace and no other.
pub proof fn law_fold_toggles_one_workspace(
    folded: Seq<Seq<char>>,
    workspace: Seq<char>,
    other: Seq<char>,
)
    requires
        folded_once(folded),
    ensures
        is_folded(fold_toggled(folded, workspace), other) == (is_folded(folded, other)
            != same(workspace, other)),
{
    let w = fold_toggled(folded, workspace);
    lemma_fold_place(folded, workspace);
    lemma_fold_place(folded, other);
    lemma_fold_place(w, other);
    let k = fold_place(folded, workspace);
    let p = fold_place(folded, other);
    if is_folded(folded, workspace) {
        if is_folded(folded, other) && !same(workspace, other) {
            let np = if p < k { p } else { p - 1 };
            assert(w[np] == folded[p]);
            lemma_is_folded(w, other, np);
        }
        if is_folded(w, other) {
            let q = fold_place(w, other);
            let oq = if q < k { q } else { q + 1 };
            assert(w[q] == folded[oq]);
            lemma_is_folded(folded, other, oq);
            if same(workspace, other) {
                if oq < k {
                    assert(!same(folded[oq], folded[k]));
                } else {
                    assert(!same(folded[k], folded[oq]));
                }
            }
        }
        if same(workspace, other) {
            lemma_is_folded(folded, other, k);
        }
    } else {
        if is_folded(folded, other) {
            assert(w[p] == folded[p]);
            lemma_is_folded(w, other, p);
            if same(workspace, other) {
                lemma_is_folded(folded, workspace, p);
            }
        }
        if same(workspace, other) {
            assert(w[folded.len() as int] == workspace);
            lemma_is_folded(w, other, folded.len() as int);
        }
        if is_folded(w, other) {
            let q = fold_place(w, other);
            if q < folded.len() {
                assert(w[q] == folded[q]);
                lemma_is_folded(folded, other, q);
            }
        }
    }
}

/// What was given up or superseded is dropped when it comes: a preparation, a
/// listing and a conversion that are not awaited change nothing.
pub proof fn law_stale_results_change_nothing(
    v: AppView,
    gen: u64,
    plan: Result<SpawnView, Seq<char>>,
    listed: Result<Seq<ChatView>, Seq<char>>,
    script: Result<Seq<char>, Seq<char>>,
    draft: DraftView,
    from_resume: bool,
)
    requires
        sound(v),
    ensures
        prepared(spawn_cancelled(v), gen, plan) == spawn_cancelled(v),
        prepared(spawning(v, draft, from_resume), v.spawn_gen, plan) == spawning(
            v,
            draft,
            from_resume,
        ),
        resume_loaded(resume_left(v), gen, listed) == resume_left(v),
        resume_loaded(resume_opened(v), v.load_gen, listed) == resume_opened(v),
        converted(convert_cancelled(v), v.convert_gen, script) == convert_cancelled(v),
        converted(converting(v), v.convert_gen, script) == converting(v),
{
}

/// A session that could not be prepared or started changes no tab, and a new
/// session's dialog opens again with what was in it.
pub proof fn law_failed_spawn_keeps_draft(
    v: AppView,
    draft: DraftView,
    from_resume: bool,
    error: Seq<char>,
)
    ensures
        ({
            let w = spawning(v, draft, from_resume);
            let f = prepared(w, w.spawn_gen, Err(error));
            &&& f.tabs == v.tabs
            &&& f.active == v.active
            &&& f.pending is None
            &&& f.spawn_error == Some(error)
            &&& !from_resume ==> f.new_dialog == Some(draft)
            &&& from_resume ==> f.new_dialog == v.new_dialog
        }),
{
}

/// Of the dialogs for a new session, a past session and a script, the one that
/// was opened last is the only one.
pub proof fn law_dialogs_replace_each_other(v: AppView, cwd: Option<Seq<char>>)
    ensures
        new_opened(v, cwd).new_dialog is Some && new_opened(v, cwd).resume is None && new_opened(
            v,
            cwd,
        ).convert is None,
        resume_opened(v).resume is Some && resume_opened(v).new_dialog is None && resume_opened(
            v,
        ).convert is None,
        convert_opened(v).convert is Some && convert_opened(v).new_dialog is None
            && convert_opened(v).resume is None,
{
}

/// Once the poller was told what to watch, it is not told again until the
/// sessions change.
pub proof fn law_watches_are_told_once(v: AppView)
    ensures
        same_watches(
            watches_of(v.tabs),
            (AppView { watches: watches_of(v.tabs), ..v }).watches,
        ),
{
}

/// A session's transcript is found once: what is found later changes nothing.
pub proof fn law_chat_is_bound_once(v: AppView, id: u64, chat_id: Seq<char>, other: Seq<char>)
    requires
        chat_id.len() > 0,
    ensures
        chat_bound(chat_bound(v, id, chat_id), id, other) == chat_bound(v, id, chat_id),
        has_tab(v.tabs, id) && tab_with(v.tabs, id).chat_id.len() == 0 ==> tab_with(
            chat_bound(v, id, chat_id).tabs,
            id,
        ).chat_id == chat_id,
{
    lemma_place(v.tabs, id);
    let w = chat_bound(v, id, chat_id);
    if has_tab(v.tabs, id) {
        assert(forall|i: int| 0 <= i < w.tabs.len() ==> (#[trigger] w.tabs[i]).id == v.tabs[i].id);
        lemma_same_places(w.tabs, v.tabs, id);
    }
}

/// Each closed session is either still waited for or given up, and those that
/// are waited for are not overdue.
pub proof fn law_draining_is_split(ds: Seq<DrainingPty>, now_ms: u64)
    ensures
        awaited(ds, now_ms).len() + given_up(ds, now_ms).len() == ds.len(),
        forall|i: int|
            0 <= i < awaited(ds, now_ms).len() ==> ds.contains(#[trigger] awaited(ds, now_ms)[i])
                && !overdue(awaited(ds, now_ms)[i], now_ms),
    decreases ds.len(),
{
    if ds.len() > 0 {
        let t = ds.drop_last();
        law_draining_is_split(t, now_ms);
        let r = awaited(ds, now_ms);
        let before = awaited(t, now_ms);
        assert forall|i: int| 0 <= i < r.len() implies ds.contains(#[trigger] r[i]) && !overdue(
            r[i],
            now_ms,
        ) by {
            if i < before.len() {
                assert(r[i] == before[i]);
                let k = t.index_of(r[i]);
                assert(ds[k] == r[i]);
            } else {
                assert(ds[ds.len() - 1] == r[i]);
            }
        }
    }
}

/// An event changes the tab of its session and no other, and nothing else in the manager
/// but what is waited for: an exit, a title, what was learned, a fold, a transcript that
/// was found and a name that the tab gives itself.
pub proof fn law_event_reaches_its_tab(
    v: AppView,
    k: int,
    title: Seq<char>,
    snap: SnapshotView,
    chats: Option<Seq<KnownView>>,
    workspace: Seq<char>,
    cells: Seq<ScreenCell>,
)
    requires
        ids_grow(v.tabs, v.next_id),
        0 <= k < v.tabs.len(),
    ensures
        ({
            let id = v.tabs[k].id;
            let t = v.tabs[k];
            let with = |tab: TabView| AppView { tabs: v.tabs.update(k, tab), ..v };
            &&& pty_exited(v, id).tabs == v.tabs.update(k, exited(t))
            &&& pty_exited(v, id) == (AppView {
                tabs: pty_exited(v, id).tabs,
                draining: pty_exited(v, id).draining,
                ..v
            })
            &&& pty_titled(v, id, title) == with(terminal_titled(t, title))
            &&& snapped(v, id, snap) == with(refreshed(t, snap))
            &&& tasks_toggled(v, id) == with(TabView { tasks_folded: !t.tasks_folded, ..t })
            &&& auto_renamed(v, id, chats, workspace, cells) == with(
                auto_named(t, chats, workspace, cells),
            )
            &&& t.chat_id.len() == 0 ==> chat_bound(v, id, title) == with(
                TabView { chat_id: title, ..t },
            )
            &&& t.chat_id.len() > 0 ==> chat_bound(v, id, title) == v
        }),
{
    lemma_place_is(v.tabs, k, v.next_id);
}

/// An event for a session that has no tab changes no tab.
pub proof fn law_unknown_session_changes_no_tab(
    v: AppView,
    id: u64,
    title: Seq<char>,
    snap: SnapshotView,
    now_ms: u64,
)
    requires
        forall|i: int| 0 <= i < v.tabs.len() ==> (#[trigger] v.tabs[i]).id != id,
    ensures
        pty_exited(v, id).tabs == v.tabs,
        pty_titled(v, id, title) == v,
        snapped(v, id, snap) == v,
        tasks_toggled(v, id) == v,
        chat_bound(v, id, title) == v,
        closed(v, id, now_ms).tabs == v.tabs,
        closed(v, id, now_ms).draining == v.draining,
        close_action(v, id) == CloseAction::Nothing,
{
    lemma_place(v.tabs, id);
    if has_tab(v.tabs, id) {
        assert(v.tabs[place_of(v.tabs, id)].id == id);
    }
}

/// An exit ends the wait for the session, and for no other.
pub proof fn law_exit_ends_its_wait(v: AppView, id: u64)
    ensures
        pty_exited(v, id).draining == v.draining.filter(|d: DrainingPty| d.id != id),
        without_id(v.draining, id) == v.draining.filter(|d: DrainingPty| d.id != id),
{
    lemma_without_id(v.draining, id);
}

/// What stays is what has another id.
proof fn lemma_without_id(ds: Seq<DrainingPty>, id: u64)
    ensures
        without_id(ds, id) == ds.filter(|d: DrainingPty| d.id != id),
    decreases ds.len(),
{
    reveal(Seq::filter);
    if ds.len() > 0 {
        lemma_without_id(ds.drop_last(), id);
    }
}

/// A closed session is waited for two seconds, and then given up.
pub proof fn law_wait_is_two_seconds(ds: Seq<DrainingPty>, now_ms: u64)
    ensures
        awaited(ds, now_ms) == ds.filter(|d: DrainingPty| now_ms < d.since_ms + 2000),
        given_up(ds, now_ms) == ds.filter(
            |d: DrainingPty| now_ms >= d.since_ms + 2000,
        ).map_values(|d: DrainingPty| d.id),
    decreases ds.len(),
{
    reveal(Seq::filter);
    if ds.len() > 0 {
        law_wait_is_two_seconds(ds.drop_last(), now_ms);
    }
    assert(given_up(ds, now_ms) =~= ds.filter(
        |d: DrainingPty| now_ms >= d.since_ms + 2000,
    ).map_values(|d: DrainingPty| d.id));
}

/// Closing a session takes its tab away and leaves the others as they are, in their
/// order. An agent that runs is killed and waited for from now on; one that has exited is
/// only dropped.
pub proof fn law_close_removes_one_tab(v: AppView, k: int, now_ms: u64)
    requires
        ids_grow(v.tabs, v.next_id),
        0 <= k < v.tabs.len(),
    ensures
        ({
            let id = v.tabs[k].id;
            let w = closed(v, id, now_ms);
            &&& w.tabs == v.tabs.remove(k)
            &&& w == (AppView { tabs: w.tabs, draining: w.draining, active: w.active, ..v })
            &&& v.tabs[k].alive ==> close_action(v, id) == CloseAction::Kill && w.draining
                == v.draining.push(DrainingPty { id, since_ms: now_ms })
            &&& !v.tabs[k].alive ==> close_action(v, id) == CloseAction::Drop && w.draining
                == v.draining
        }),
{
    lemma_place_is(v.tabs, k, v.next_id);
}

/// A session that was prepared and started gets a tab behind the others, under a new id,
/// which becomes active; the dialogs that led to it are closed.
pub proof fn law_started_session_gets_active_tab(
    v: AppView,
    draft: DraftView,
    from_resume: bool,
    plan: SpawnView,
)
    requires
        sound(v),
        v.next_id < u64::MAX,
    ensures
        ({
            let a = spawning(v, draft, from_resume);
            let b = prepared(a, a.spawn_gen, Ok(plan));
            let c = spawned(b, v.next_id, plan, a.pending->0, None);
            &&& is_awaited(a, a.spawn_gen)
            &&& a.tabs == v.tabs && a.pending == Some(
                PendingView { gen: a.spawn_gen, draft, from_resume },
            )
            &&& b.pending is None && b.next_id == v.next_id + 1
            &&& c.tabs.len() == v.tabs.len() + 1
            &&& forall|i: int| 0 <= i < v.tabs.len() ==> c.tabs[i] == v.tabs[i]
            &&& c.tabs.last().id == v.next_id && c.tabs.last().alive
            &&& c.tabs.last().workspace == plan.workspace && c.tabs.last().title == plan.title
            &&& c.tabs.last().chat_id == plan.chat_id
            &&& c.active == Some(v.next_id)
            &&& c.new_dialog is None && c.resume is None && c.resume_load is None
            &&& c.spawn_error is None
        }),
{
}

/// A number that is given out differs from the one before.
pub proof fn law_numbers_differ(n: u64)
    ensures
        after(n) != n,
        n < u64::MAX ==> after(n) == n + 1,
{
}

/// A task that has a tab is shown there. One that has none is resumed in the workspace,
/// under its own id and title, unless something else is being started.
pub proof fn law_task_is_shown_or_resumed(
    v: AppView,
    workspace: Seq<char>,
    chat_id: Seq<char>,
    title: Seq<char>,
    k: int,
)
    ensures
        0 <= k < v.tabs.len() && v.tabs[k].chat_id == chat_id && (forall|j: int|
            0 <= j < k ==> (#[trigger] v.tabs[j]).chat_id != chat_id) ==> task_opened(
            v,
            workspace,
            chat_id,
            title,
        ) == (AppView { active: Some(v.tabs[k].id), ..v }) && !task_resumes(v, chat_id),
        (forall|j: int| 0 <= j < v.tabs.len() ==> (#[trigger] v.tabs[j]).chat_id != chat_id)
            && v.pending is Some ==> task_opened(v, workspace, chat_id, title) == v
            && !task_resumes(v, chat_id),
        (forall|j: int| 0 <= j < v.tabs.len() ==> (#[trigger] v.tabs[j]).chat_id != chat_id)
            && v.pending is None ==> ({
            let w = task_opened(v, workspace, chat_id, title);
            &&& task_resumes(v, chat_id)
            &&& w.tabs == v.tabs && w.active == v.active
            &&& w.pending is Some && w.pending->0.from_resume && w.pending->0.gen == w.spawn_gen
            &&& w.pending->0.draft.workspace == workspace
            &&& w.pending->0.draft.resume_chat_id == Some(chat_id)
            &&& w.pending->0.draft.tab_title == Some(title)
            &&& w.pending->0.draft.prompt.len() == 0 && w.pending->0.draft.images.len() == 0
            &&& w.pending->0.draft.model.len() == 0
            &&& w.pending->0.draft.trust && !w.pending->0.draft.force
        }),
{
    reveal_strlit("");
    if 0 <= k < v.tabs.len() && v.tabs[k].chat_id == chat_id && (forall|j: int|
        0 <= j < k ==> (#[trigger] v.tabs[j]).chat_id != chat_id) {
        lemma_tab_of_chat_is(v.tabs, chat_id, k);
    }
    if forall|j: int| 0 <= j < v.tabs.len() ==> (#[trigger] v.tabs[j]).chat_id != chat_id {
        lemma_no_tab_of_chat(v.tabs, chat_id);
    }
}

/// The first tab of a session is found.
proof fn lemma_tab_of_chat_is(tabs: Seq<TabView>, chat_id: Seq<char>, k: int)
    requires
        0 <= k < tabs.len(),
        tabs[k].chat_id == chat_id,
        forall|j: int| 0 <= j < k ==> (#[trigger] tabs[j]).chat_id != chat_id,
    ensures
        tab_of_chat(tabs, chat_id) == Some(tabs[k].id),
    decreases tabs.len(),
{
    if k > 0 {
        let t = tabs.drop_first();
        assert(tabs[0].chat_id != chat_id);
        assert forall|j: int| 0 <= j < k - 1 implies (#[trigger] t[j]).chat_id != chat_id by {
            assert(tabs[j + 1].chat_id != chat_id);
        }
        lemma_tab_of_chat_is(t, chat_id, k - 1);
    }
}

/// A session without a tab is not found.
proof fn lemma_no_tab_of_chat(tabs: Seq<TabView>, chat_id: Seq<char>)
    requires
        forall|j: int| 0 <= j < tabs.len() ==> (#[trigger] tabs[j]).chat_id != chat_id,
    ensures
        tab_of_chat(tabs, chat_id) is None,
    decreases tabs.len(),
{
    if tabs.len() > 0 {
        let t = tabs.drop_first();
        assert(tabs[0].chat_id != chat_id);
        assert forall|j: int| 0 <= j < t.len() implies (#[trigger] t[j]).chat_id != chat_id by {
            assert(tabs[j + 1].chat_id != chat_id);
        }
        lemma_no_tab_of_chat(t, chat_id);
    }
}

/// A new session is drafted in the workspace of the active tab, else in the current
/// directory. Opening a dialog changes no tab.
pub proof fn law_new_session_starts_where_the_user_is(v: AppView, k: int, cwd: Option<Seq<char>>)
    requires
        ids_grow(v.tabs, v.next_id),
    ensures
        0 <= k < v.tabs.len() && v.active == Some(v.tabs[k].id) ==> new_opened(v, cwd).new_dialog
            == Some(blank_draft(v.tabs[k].workspace)),
        v.active is None && cwd is Some ==> new_opened(v, cwd).new_dialog == Some(
            blank_draft(cwd->0),
        ),
        v.active is None && cwd is None ==> new_opened(v, cwd).new_dialog == Some(
            blank_draft("."@),
        ),
        new_opened(v, cwd).tabs == v.tabs && new_opened(v, cwd).active == v.active,
        resume_opened(v).tabs == v.tabs && resume_opened(v).active == v.active,
        convert_opened(v).tabs == v.tabs && convert_opened(v).active == v.active,
{
    if 0 <= k < v.tabs.len() && v.active == Some(v.tabs[k].id) {
        lemma_place_is(v.tabs, k, v.next_id);
    }
}

/// What is watched is every session whose transcript is known, under its tab's id; what is
/// not yet known is looked for while the agent runs.
pub proof fn law_known_transcripts_are_watched(tabs: Seq<TabView>)
    ensures
        watches_of(tabs) == tabs.filter(|t: TabView| t.chat_id.len() > 0).map_values(
            |t: TabView|
                ChatWatchView { id: t.id, chat_id: t.chat_id, workspace: t.workspace },
        ),
        unbound_of(tabs) == tabs.filter(
            |t: TabView| t.alive && t.chat_id.len() == 0,
        ).map_values(|t: TabView| t.id),
    decreases tabs.len(),
{
    reveal(Seq::filter);
    if tabs.len() > 0 {
        law_known_transcripts_are_watched(tabs.drop_last());
    }
    assert(watches_of(tabs) =~= tabs.filter(|t: TabView| t.chat_id.len() > 0).map_values(
        |t: TabView| ChatWatchView { id: t.id, chat_id: t.chat_id, workspace: t.workspace },
    ));
    assert(unbound_of(tabs) =~= tabs.filter(
        |t: TabView| t.alive && t.chat_id.len() == 0,
    ).map_values(|t: TabView| t.id));
}

/// The poller is told again where the id of a tab, its session or its workspace changed.
pub proof fn law_changed_watches_are_told(a: Seq<ChatWatchView>, b: Seq<ChatWatchView>, i: int)
    requires
        0 <= i < a.len(),
        a.len() == b.len() ==> a[i].id != b[i].id || a[i].chat_id != b[i].chat_id || !same(
            a[i].workspace,
            b[i].workspace,
        ),
    ensures
        !same_watches(a, b),
{
}

/// Clicking resume starts what the dialog has chosen, and tells the error where it has
/// chosen nothing that can be resumed. Leaving a dialog gives up what it was starting.
pub proof fn law_resume_click_starts_choice(v: AppView, d: ResumeView)
    requires
        v.resume == Some(d),
    ensures
        resume_draft(d) matches Ok(draft) ==> resume_clicked(v) == (AppView {
            spawn_error: None,
            spawn_gen: after(v.spawn_gen),
            pending: Some(PendingView { gen: after(v.spawn_gen), draft, from_resume: true }),
            ..v
        }),
        resume_draft(d) matches Err(e) ==> resume_clicked(v) == (AppView {
            spawn_error: Some(e),
            ..v
        }),
        resume_left(v).resume is None && resume_left(v).pending is None && resume_left(
            v,
        ).resume_load is None && resume_left(v).tabs == v.tabs,
        new_left(v).new_dialog is None && new_left(v).pending is None && new_left(v).tabs == v.tabs,
        resume_refreshed(v).resume == Some(ResumeView { loading: true, load_error: None, ..d }),
        resume_refreshed(v).resume_load == Some(resume_refreshed(v).load_gen),
{
}

/// The listing that is awaited fills the dialog, and one that is not does nothing.
pub proof fn law_awaited_listing_fills_dialog(
    v: AppView,
    gen: u64,
    result: Result<Seq<ChatView>, Seq<char>>,
)
    ensures
        v.resume_load == Some(gen) && v.resume is Some ==> resume_loaded(v, gen, result) == (
        AppView { resume_load: None, resume: Some(reloaded(v.resume->0, result)), ..v }),
        v.resume_load != Some(gen) ==> resume_loaded(v, gen, result) == v,
{
}

/// A script that was converted is shown beside its bash, and remembered with it; an error
/// is shown and nothing remembered. A script of the history is shown both ways.
pub proof fn law_converted_script_is_shown(
    v: AppView,
    d: ConvertView,
    n: Seq<char>,
    e: Seq<char>,
    i: int,
)
    requires
        v.convert == Some(d),
    ensures
        ({
            let w = converted(v, v.convert_gen, Ok(n));
            &&& w.convert == Some(
                ConvertView { nushell: n, error: None, converting: false, ..d },
            )
            &&& w.history == remembered(v.history, d.bash, n)
            &&& w == (AppView { convert: w.convert, history: w.history, ..v })
        }),
        converted(v, v.convert_gen, Err(e)) == (AppView {
            convert: Some(ConvertView { error: Some(e), converting: false, ..d }),
            ..v
        }),
        converting(v).convert == Some(ConvertView { converting: true, error: None, ..d }),
        convert_cancelled(v).convert == Some(ConvertView { converting: false, ..d }),
        0 <= i < v.history.len() ==> snippet_restored(v, i) == (AppView {
            convert: Some(
                ConvertView {
                    bash: v.history[i].bash,
                    nushell: v.history[i].nushell,
                    error: None,
                    ..d
                },
            ),
            ..v
        }),
{
}

/// A name goes to the tab for which the dialog was opened, with its capitals, and the
/// dialog closes.
pub proof fn law_name_goes_to_its_tab(v: AppView, k: int, d: RenameView)
    requires
        ids_grow(v.tabs, v.next_id),
        0 <= k < v.tabs.len(),
        v.rename == Some(d),
        d.id == v.tabs[k].id,
    ensures
        rename_applied(v) == (AppView {
            rename: None,
            tabs: v.tabs.update(k, named(v.tabs[k], title_cased(trimmed(d.draft)))),
            ..v
        }),
{
    lemma_place_is(v.tabs, k, v.next_id);
}

/// Shutting down leaves no tab, nothing to wait for and nothing to start.
pub proof fn law_shutdown_leaves_nothing(v: AppView)
    ensures
        ({
            let w = shut_down(v);
            &&& w.tabs.len() == 0 && w.draining.len() == 0 && w.watches.len() == 0
            &&& w.active is None && w.pending is None
            &&& w.spawn_gen == after(v.spawn_gen)
            &&& w.history == v.history && w.folded == v.folded
        }),
{
}

/// The header counts the agents that run, of all tabs, and names the active one.
pub proof fn law_header_counts_running(v: AppView, k: int)
    requires
        ids_grow(v.tabs, v.next_id),
    ensures
        counts_text(v) == decimal(v.tabs.filter(|t: TabView| t.alive).len()) + "/"@ + decimal(
            v.tabs.len(),
        ) + " running"@,
        0 <= k < v.tabs.len() && v.active == Some(v.tabs[k].id) ==> active_text(v) == Some(
            "#"@ + decimal(v.tabs[k].id as nat) + " · "@ + v.tabs[k].workspace,
        ) && active_tab(v) == Some(v.tabs[k]),
        v.active is None ==> active_text(v) is None && active_tab(v) is None,
        any_dialog(v) <==> !(v.new_dialog is None && v.resume is None && v.rename is None
            && v.convert is None && v.auth is None),
{
    lemma_running(v.tabs);
    if 0 <= k < v.tabs.len() && v.active == Some(v.tabs[k].id) {
        lemma_place_is(v.tabs, k, v.next_id);
    }
}

/// Those that run are those that are alive.
proof fn lemma_running(tabs: Seq<TabView>)
    ensures
        running_count(tabs) == tabs.filter(|t: TabView| t.alive).len(),
    decreases tabs.len(),
{
    reveal(Seq::filter);
    if tabs.len() > 0 {
        lemma_running(tabs.drop_last());
    }
}

/// The manager starts without tabs and dialogs, with its ids from 1 on, and with the
/// stored token still to be tried.
pub proof fn law_manager_starts_empty(label: Seq<char>)
    ensures
        ({
            let v = fresh_app(label);
            &&& v.tabs.len() == 0 && v.active is None && v.next_id == 1
            &&& !any_dialog(v) && v.pending is None && v.spawn_error is None
            &&& v.history.len() == 0 && v.draining.len() == 0 && v.folded.len() == 0
            &&& v.pending_auto_auth && v.auth_label == label
        }),
{
}

/// Opening a dialog for a session or a script, and starting a session, clears the error of
/// an earlier start; the history and the folds stay.
pub proof fn law_opening_clears_old_errors(
    v: AppView,
    cwd: Option<Seq<char>>,
    draft: DraftView,
    from_resume: bool,
)
    ensures
        new_opened(v, cwd).spawn_error is None && new_opened(v, cwd).history == v.history
            && new_opened(v, cwd).folded == v.folded && new_opened(v, cwd).rename == v.rename
            && new_opened(v, cwd).resume_load is None,
        resume_opened(v).spawn_error is None && resume_opened(v).history == v.history
            && resume_opened(v).folded == v.folded && resume_opened(v).rename == v.rename
            && resume_opened(v).resume == Some(loading_dialog()) && resume_opened(v).resume_load
            == Some(resume_opened(v).load_gen) && resume_opened(v).load_gen == after(v.load_gen),
        convert_opened(v).spawn_error is None && convert_opened(v).history == v.history
            && convert_opened(v).folded == v.folded && convert_opened(v).rename == v.rename
            && convert_opened(v).resume_load is None && convert_opened(v).convert == Some(
            blank_convert(),
        ),
        spawning(v, draft, from_resume).spawn_error is None,
        resume_left(v).spawn_error is None && new_left(v).spawn_error is None,
        resume_refreshed(v).tabs == v.tabs,
{
}

} // verus!
