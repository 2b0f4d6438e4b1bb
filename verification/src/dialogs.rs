//! The dialogs: resuming a session, naming a tab, converting a script, signing in.
use crate::letters::{lowercase, to_lower};
use crate::oidc::{EventView, OidcLoginConfig, ConfigView, OidcLoginEvent};
use crate::session::{
    age_of, chats_view, workspace_text, ChatView, DraftView, NewSessionDraft, SavedChat,
};
use crate::split::texts;
use crate::text::{
    before_suffix, concat, concat3, contains, is_empty, occurs, opt_text, str_eq, strip_suffix,
    trim, trimmed,
};
use vstd::prelude::*;
use vstd::string::*;

verus! {

/// The dialog in which a past session is chosen.
pub struct ResumeDialog {
    pub filter: String,
    pub chats: Vec<SavedChat>,
    /// The id of the chosen session.
    pub selected: Option<String>,
    pub model: String,
    pub trust: bool,
    pub force: bool,
    pub load_error: Option<String>,
    /// Are the past sessions still being listed?
    pub loading: bool,
}

/// What the dialog holds.
pub struct ResumeView {
    pub filter: Seq<char>,
    pub chats: Seq<ChatView>,
    pub selected: Option<Seq<char>>,
    pub model: Seq<char>,
    pub trust: bool,
    pub force: bool,
    pub load_error: Option<Seq<char>>,
    pub loading: bool,
}

impl View for ResumeDialog {
    type V = ResumeView;

    open spec fn view(&self) -> ResumeView {
        ResumeView {
            filter: self.filter@,
            chats: chats_view(self.chats@),
            selected: opt_text(self.selected),
            model: self.model@,
            trust: self.trust,
            force: self.force,
            load_error: opt_text(self.load_error),
            loading: self.loading,
        }
    }
}

/// The dialog while the past sessions are being listed.
pub open spec fn loading_dialog() -> ResumeView {
    ResumeView {
        filter: ""@,
        chats: Seq::empty(),
        selected: None,
        model: ""@,
        trust: true,
        force: false,
        load_error: None,
        loading: true,
    }
}

/// Is there a past session with this id?
pub open spec fn has_chat(chats: Seq<ChatView>, id: Seq<char>) -> bool {
    exists|i: int| 0 <= i < chats.len() && (#[trigger] chats[i]).id == id
}

/// The dialog with the past sessions that were listed, or why they were not.
pub open spec fn loaded(d: ResumeView, result: Result<Seq<ChatView>, Seq<char>>) -> ResumeView {
    ResumeView {
        chats: match result {
            Ok(cs) => cs,
            Err(_) => Seq::empty(),
        },
        load_error: match result {
            Ok(_) => None,
            Err(e) => Some(e),
        },
        loading: false,
        ..d
    }
}

/// The dialog after the past sessions were listed again. The choice stays where
/// its session is still there.
pub open spec fn reloaded(d: ResumeView, result: Result<Seq<ChatView>, Seq<char>>) -> ResumeView {
    let e = loaded(d, result);
    ResumeView {
        selected: match d.selected {
            Some(id) => if has_chat(e.chats, id) {
                Some(id)
            } else {
                None
            },
            None => None,
        },
        ..e
    }
}

/// The past sessions that were listed, or why they were not.
pub open spec fn load_result(r: Result<Vec<SavedChat>, String>) -> Result<Seq<ChatView>, Seq<char>> {
    match r {
        Ok(v) => Ok(chats_view(v@)),
        Err(e) => Err(e@),
    }
}

/// Does a past session match a search text in lower case, given its title, its
/// workspace and its id in lower case?
pub open spec fn matches_low(
    title: Seq<char>,
    workspace: Seq<char>,
    id: Seq<char>,
    q: Seq<char>,
) -> bool {
    q.len() == 0 || occurs(title, q) || occurs(workspace, q) || occurs(id, q)
}

/// Does a past session match a search text in lower case?
pub open spec fn chat_matches(c: ChatView, q: Seq<char>) -> bool {
    matches_low(lowercase(c.title), lowercase(workspace_text(c)), lowercase(c.id), q)
}

/// The past sessions that match a search text in lower case, in their order.
pub open spec fn matching_chats(chats: Seq<ChatView>, q: Seq<char>) -> Seq<ChatView>
    decreases chats.len(),
{
    if chats.len() == 0 {
        Seq::empty()
    } else {
        let before = matching_chats(chats.drop_last(), q);
        if chat_matches(chats.last(), q) {
            before.push(chats.last())
        } else {
            before
        }
    }
}

/// The past sessions that the dialog shows.
pub open spec fn filtered_chats(d: ResumeView) -> Seq<ChatView> {
    matching_chats(d.chats, lowercase(trimmed(d.filter)))
}

/// The first past session with an id.
pub open spec fn chat_with(chats: Seq<ChatView>, id: Seq<char>) -> Option<ChatView>
    decreases chats.len(),
{
    if chats.len() == 0 {
        None
    } else if chats[0].id == id {
        Some(chats[0])
    } else {
        chat_with(chats.drop_first(), id)
    }
}

/// The chosen past session.
pub open spec fn chosen(d: ResumeView) -> Option<ChatView> {
    match d.selected {
        Some(id) => chat_with(d.chats, id),
        None => None,
    }
}

/// What the chosen past session is resumed with, or why it cannot be resumed.
pub open spec fn resume_draft(d: ResumeView) -> Result<DraftView, Seq<char>> {
    match chosen(d) {
        None => Err("select a chat to resume"@),
        Some(c) => match c.cwd {
            Some(cwd) => if trimmed(cwd).len() > 0 {
                Ok(
                    DraftView {
                        workspace: cwd,
                        model: d.model,
                        prompt: ""@,
                        images: Seq::empty(),
                        trust: d.trust,
                        force: d.force,
                        resume_chat_id: Some(c.id),
                        tab_title: Some(c.title),
                    },
                )
            } else {
                Err("selected chat has no workspace path; cannot resume"@)
            },
            None => Err("selected chat has no workspace path; cannot resume"@),
        },
    }
}

/// A draft or an error, by its contents.
pub open spec fn draft_result(r: Result<NewSessionDraft, String>) -> Result<DraftView, Seq<char>> {
    match r {
        Ok(d) => Ok(d@),
        Err(e) => Err(e@),
    }
}

/// Does a past session match a search text in lower case, given its title, its
/// workspace and its id in lower case?
pub fn low_text_matches(title: &str, workspace: &str, id: &str, q: &str) -> (r: bool)
    ensures
        r == matches_low(title@, workspace@, id@, q@),
{
    is_empty(q) || contains(title, q) || contains(workspace, q) || contains(id, q)
}

/// What a row of the dialog says of a past session beside its title.
pub open spec fn meta_of(c: ChatView, now_ms: u64) -> Seq<char> {
    workspace_text(c) + " · "@ + age_of(c.updated_at_ms, now_ms)
}

/// What a row of the dialog says of a past session beside its title.
pub fn chat_meta(chat: &SavedChat, now_ms: u64) -> (r: String)
    ensures
        r@ == meta_of(chat@, now_ms),
{
    concat3(chat.workspace_label().as_str(), " · ", chat.age_label(now_ms).as_str())
}

/// Matching everything keeps every past session.
proof fn lemma_match_all(chats: Seq<ChatView>, q: Seq<char>)
    requires
        q.len() == 0,
    ensures
        matching_chats(chats, q) == chats,
    decreases chats.len(),
{
    if chats.len() > 0 {
        lemma_match_all(chats.drop_last(), q);
        assert(chats.drop_last().push(chats.last()) =~= chats);
    } else {
        assert(matching_chats(chats, q) =~= chats);
    }
}

impl ResumeDialog {
    /// The dialog while the past sessions are being listed.
    pub fn loading() -> (r: ResumeDialog)
        ensures
            r@ == loading_dialog(),
    {
        let r = ResumeDialog {
            filter: "".to_owned(),
            chats: Vec::new(),
            selected: None,
            model: "".to_owned(),
            trust: true,
            force: false,
            load_error: None,
            loading: true,
        };
        assert(chats_view(r.chats@) =~= Seq::empty());
        r
    }

    /// Is there a past session with this id?
    fn lists(&self, id: &str) -> (r: bool)
        ensures
            r == has_chat(self@.chats, id@),
    {
        let ghost all = self@.chats;
        let mut i: usize = 0;
        while i < self.chats.len()
            invariant
                i <= self.chats@.len(),
                all == chats_view(self.chats@),
                forall|j: int| 0 <= j < i ==> (#[trigger] all[j]).id != id@,
            decreases self.chats.len() - i,
        {
            assert(all[i as int] == self.chats@[i as int]@);
            if str_eq(self.chats[i].id.as_str(), id) {
                assert(has_chat(all, id@));
                return true;
            }
            i += 1;
        }
        false
    }

    /// Takes in the past sessions, or why they could not be listed.
    pub fn apply_load(&mut self, result: Result<Vec<SavedChat>, String>)
        ensures
            final(self)@ == loaded(old(self)@, load_result(result)),
    {
        self.loading = false;
        match result {
            Ok(chats) => {
                self.chats = chats;
                self.load_error = None;
            },
            Err(e) => {
                self.chats = Vec::new();
                self.load_error = Some(e);
                assert(chats_view(self.chats@) =~= Seq::empty());
            },
        }
    }

    /// Takes in the past sessions that were listed again, or why they could not
    /// be. The choice stays where its session is still there.
    pub fn reload(&mut self, result: Result<Vec<SavedChat>, String>)
        ensures
            final(self)@ == reloaded(old(self)@, load_result(result)),
    {
        self.apply_load(result);
        let keep = match &self.selected {
            Some(id) => self.lists(id.as_str()),
            None => false,
        };
        if !keep {
            self.selected = None;
        }
    }

    /// The past sessions that the dialog shows: those whose title, workspace or
    /// id holds the filter, in any case. A blank filter keeps all.
    pub fn filtered(&self) -> (r: Vec<SavedChat>)
        ensures
            chats_view(r@) == filtered_chats(self@),
            trimmed(self@.filter).len() == 0 ==> chats_view(r@) == self@.chats,
    {
        let f = trim(self.filter.as_str());
        let q = to_lower(f);
        let ghost all = self@.chats;
        let mut out: Vec<SavedChat> = Vec::new();
        let mut i: usize = 0;
        assert(chats_view(out@) =~= matching_chats(all.take(0), q@));
        while i < self.chats.len()
            invariant
                i <= self.chats@.len(),
                all == chats_view(self.chats@),
                chats_view(out@) == matching_chats(all.take(i as int), q@),
            decreases self.chats.len() - i,
        {
            let c = &self.chats[i];
            let ghost before = chats_view(out@);
            proof {
                assert(all.take(i + 1).drop_last() =~= all.take(i as int));
                assert(all.take(i + 1).last() == c@);
            }
            let title = to_lower(c.title.as_str());
            let workspace = to_lower(c.workspace_label().as_str());
            let id = to_lower(c.id.as_str());
            if low_text_matches(title.as_str(), workspace.as_str(), id.as_str(), q.as_str()) {
                let x = c.copy();
                out.push(x);
                assert(chats_view(out@) =~= before.push(c@));
            }
            i += 1;
        }
        proof {
            assert(all.take(i as int) =~= all);
            if f@.len() == 0 {
                assert(vstd::utf8::is_ascii_chars(f@));
                lemma_match_all(all, q@);
            }
        }
        out
    }

    /// The chosen past session.
    pub fn selected_chat(&self) -> (r: Option<&SavedChat>)
        ensures
            match r {
                Some(c) => chosen(self@) == Some(c@),
                None => chosen(self@) is None,
            },
    {
        let id = match &self.selected {
            Some(id) => id.as_str(),
            None => return None,
        };
        let ghost all = self@.chats;
        let mut i: usize = 0;
        assert(all.skip(0) =~= all);
        while i < self.chats.len()
            invariant
                i <= self.chats@.len(),
                all == chats_view(self.chats@),
                opt_text(self.selected) == Some(id@),
                chat_with(all.skip(i as int), id@) == chat_with(all, id@),
            decreases self.chats.len() - i,
        {
            proof {
                assert(all.skip(i as int)[0] == self.chats@[i as int]@);
                assert(all.skip(i as int).drop_first() =~= all.skip(i + 1));
            }
            if str_eq(self.chats[i].id.as_str(), id) {
                return Some(&self.chats[i]);
            }
            i += 1;
        }
        None
    }

    /// What the chosen past session is resumed with, or why it cannot be resumed.
    pub fn to_draft(&self) -> (r: Result<NewSessionDraft, String>)
        ensures
            draft_result(r) == resume_draft(self@),
    {
        let chat = match self.selected_chat() {
            Some(c) => c,
            None => return Err("select a chat to resume".to_owned()),
        };
        if let Some(cwd) = &chat.cwd {
            if !is_empty(trim(cwd.as_str())) {
                let d = NewSessionDraft {
                    workspace: cwd.clone(),
                    model: self.model.clone(),
                    prompt: "".to_owned(),
                    images: Vec::new(),
                    trust: self.trust,
                    force: self.force,
                    resume_chat_id: Some(chat.id.clone()),
                    tab_title: Some(chat.title.clone()),
                };
                assert(texts(d.images@) =~= Seq::empty());
                return Ok(d);
            }
        }
        Err("selected chat has no workspace path; cannot resume".to_owned())
    }

    /// May the chosen session be resumed now?
    pub fn can_resume(&self, starting: bool) -> (r: bool)
        ensures
            r == (self@.selected is Some && !self@.loading && !starting),
    {
        self.selected.is_some() && !self.loading && !starting
    }
}

/// After the past sessions were listed again, the choice is one of them, if
/// there is one.
pub proof fn law_choice_is_listed(d: ResumeView, result: Result<Seq<ChatView>, Seq<char>>)
    ensures
        reloaded(d, result).selected matches Some(id) ==> has_chat(reloaded(d, result).chats, id),
        reloaded(d, result).selected is Some ==> chosen(reloaded(d, result)) is Some,
{
    let e = reloaded(d, result);
    if let Some(id) = e.selected {
        let k = choose|i: int| 0 <= i < e.chats.len() && (#[trigger] e.chats[i]).id == id;
        lemma_chat_with_finds(e.chats, id, k);
    }
}

/// A past session that is listed is found.
proof fn lemma_chat_with_finds(chats: Seq<ChatView>, id: Seq<char>, k: int)
    requires
        0 <= k < chats.len(),
        chats[k].id == id,
    ensures
        chat_with(chats, id) is Some,
    decreases chats.len(),
{
    if chats[0].id != id {
        lemma_chat_with_finds(chats.drop_first(), id, k - 1);
    }
}

/// Whatever is shown is one of the past sessions.
pub proof fn law_filter_only_removes(chats: Seq<ChatView>, q: Seq<char>)
    ensures
        matching_chats(chats, q).len() <= chats.len(),
        forall|i: int|
            0 <= i < matching_chats(chats, q).len() ==> chats.contains(
                #[trigger] matching_chats(chats, q)[i],
            ) && chat_matches(matching_chats(chats, q)[i], q),
    decreases chats.len(),
{
    if chats.len() > 0 {
        let t = chats.drop_last();
        law_filter_only_removes(t, q);
        let r = matching_chats(chats, q);
        assert forall|i: int| 0 <= i < r.len() implies chats.contains(#[trigger] r[i])
            && chat_matches(r[i], q) by {
            let before = matching_chats(t, q);
            if i < before.len() {
                assert(r[i] == before[i]);
                let k = t.index_of(r[i]);
                assert(chats[k] == r[i]);
            } else {
                assert(chats[chats.len() - 1] == r[i]);
            }
        }
    }
}

/// The dialog in which a tab is named.
pub struct RenameDialog {
    pub id: u64,
    pub draft: String,
    /// Is the field still to be given the focus?
    pub focus: bool,
}

/// What the dialog holds.
pub struct RenameView {
    pub id: u64,
    pub draft: Seq<char>,
    pub focus: bool,
}

impl View for RenameDialog {
    type V = RenameView;

    open spec fn view(&self) -> RenameView {
        RenameView { id: self.id, draft: self.draft@, focus: self.focus }
    }
}

/// The dialog for a tab with a title.
pub open spec fn rename_dialog_for(id: u64, title: Seq<char>) -> RenameView {
    RenameView {
        id,
        draft: match before_suffix(title, " (exited)"@) {
            Some(base) => base,
            None => title,
        },
        focus: true,
    }
}

impl RenameDialog {
    /// The dialog for a tab; its title is offered without saying that the agent exited.
    pub fn for_tab(id: u64, title: &str) -> (r: RenameDialog)
        ensures
            r@ == rename_dialog_for(id, title@),
    {
        let draft = match strip_suffix(title, " (exited)") {
            Some(base) => base.to_owned(),
            None => title.to_owned(),
        };
        RenameDialog { id, draft, focus: true }
    }

    /// May the name be taken?
    pub fn can_apply(&self) -> (r: bool)
        ensures
            r == (trimmed(self@.draft).len() > 0),
    {
        !is_empty(trim(self.draft.as_str()))
    }
}

/// The dialog in which a script is converted.
pub struct ConvertDialog {
    pub bash: String,
    pub nushell: String,
    pub error: Option<String>,
    /// Is a conversion under way?
    pub converting: bool,
    /// Is the field still to be given the focus?
    pub focus: bool,
}

/// What the dialog holds.
pub struct ConvertView {
    pub bash: Seq<char>,
    pub nushell: Seq<char>,
    pub error: Option<Seq<char>>,
    pub converting: bool,
    pub focus: bool,
}

impl View for ConvertDialog {
    type V = ConvertView;

    open spec fn view(&self) -> ConvertView {
        ConvertView {
            bash: self.bash@,
            nushell: self.nushell@,
            error: opt_text(self.error),
            converting: self.converting,
            focus: self.focus,
        }
    }
}

/// The dialog when it opens.
pub open spec fn blank_convert() -> ConvertView {
    ConvertView { bash: ""@, nushell: ""@, error: None, converting: false, focus: true }
}

impl Default for ConvertDialog {
    fn default() -> (r: ConvertDialog)
        ensures
            r@ == blank_convert(),
    {
        ConvertDialog {
            bash: "".to_owned(),
            nushell: "".to_owned(),
            error: None,
            converting: false,
            focus: true,
        }
    }
}

impl ConvertDialog {
    /// May the script be converted now?
    pub fn can_convert(&self) -> (r: bool)
        ensures
            r == (trimmed(self@.bash).len() > 0 && !self@.converting),
    {
        !is_empty(trim(self.bash.as_str())) && !self.converting
    }

    /// Is there a result to copy?
    pub fn can_copy(&self) -> (r: bool)
        ensures
            r == (trimmed(self@.nushell).len() > 0),
    {
        !is_empty(trim(self.nushell.as_str()))
    }
}

/// How to sign in.
#[derive(Debug, Clone, Copy, PartialEq, Eq, Structural)]
pub enum AuthMethod {
    Token,
    Oidc,
}

/// The dialog in which the user signs in.
pub struct AuthDialog {
    pub address: String,
    pub bao_token: String,
    pub show_token_field: bool,
    pub auth_method: AuthMethod,
    pub oidc_mount: String,
    pub oidc_role: String,
    /// Is a sign-in in the browser under way?
    pub oidc_busy: bool,
    pub oidc_auth_url: String,
    pub status: String,
}

/// What the dialog holds.
pub struct AuthView {
    pub address: Seq<char>,
    pub bao_token: Seq<char>,
    pub show_token_field: bool,
    pub auth_method: AuthMethod,
    pub oidc_mount: Seq<char>,
    pub oidc_role: Seq<char>,
    pub oidc_busy: bool,
    pub oidc_auth_url: Seq<char>,
    pub status: Seq<char>,
}

impl View for AuthDialog {
    type V = AuthView;

    open spec fn view(&self) -> AuthView {
        AuthView {
            address: self.address@,
            bao_token: self.bao_token@,
            show_token_field: self.show_token_field,
            auth_method: self.auth_method,
            oidc_mount: self.oidc_mount@,
            oidc_role: self.oidc_role@,
            oidc_busy: self.oidc_busy,
            oidc_auth_url: self.oidc_auth_url@,
            status: self.status@,
        }
    }
}

/// The dialog when it opens.
pub open spec fn auth_dialog_for(
    config: ConfigView,
    address: Seq<char>,
    stored: Seq<char>,
    has_key: bool,
) -> AuthView {
    AuthView {
        address,
        bao_token: stored,
        show_token_field: stored.len() == 0,
        auth_method: AuthMethod::Oidc,
        oidc_mount: config.mount,
        oidc_role: config.role,
        oidc_busy: false,
        oidc_auth_url: ""@,
        status: if has_key {
            "CURSOR_API_KEY is already set in the environment."@
        } else {
            ""@
        },
    }
}

/// The dialog without a sign-in in the browser.
pub open spec fn oidc_cancelled(d: AuthView) -> AuthView {
    AuthView { oidc_busy: false, oidc_auth_url: ""@, ..d }
}

/// What a sign-in reported, in the dialog. A token is used right away.
pub open spec fn oidc_reported(d: AuthView, event: EventView) -> AuthView {
    match event {
        EventView::Ready { auth_url, browser_error } => AuthView {
            oidc_auth_url: auth_url,
            status: match browser_error {
                Some(e) => "Open this URL manually:\n"@ + e,
                None => "Complete login in your browser, then return here…"@,
            },
            ..d
        },
        EventView::Success { token } => AuthView {
            bao_token: token,
            status: "Fetching Cursor API key…"@,
            ..oidc_cancelled(d)
        },
        EventView::Failed(m) => AuthView { status: m, ..oidc_cancelled(d) },
    }
}

/// The dialog after the API key was fetched with a token from the browser, or
/// why it was not.
pub open spec fn login_completed(d: AuthView, error: Option<Seq<char>>) -> AuthView {
    match error {
        None => AuthView {
            status: "Cursor API key loaded."@,
            show_token_field: false,
            ..oidc_cancelled(d)
        },
        Some(e) => AuthView { status: e, show_token_field: true, ..d },
    }
}

/// The dialog after the user asked to use the token in it, and whether it is used.
pub open spec fn token_tried(d: AuthView) -> (AuthView, bool) {
    if trimmed(d.address).len() == 0 {
        (AuthView { status: "Server address is required."@, ..d }, false)
    } else if trimmed(d.bao_token).len() == 0 {
        (
            AuthView { status: "OpenBao token is required."@, show_token_field: true, ..d },
            false,
        )
    } else {
        (AuthView { status: "Fetching Cursor API key…"@, ..d }, true)
    }
}

/// The dialog after the API key was fetched with the token in it, or why it
/// was not; and why the token could not be stored, if it could not.
pub open spec fn token_used(d: AuthView, error: Option<Seq<char>>, save_error: Option<Seq<char>>) -> AuthView {
    match error {
        None => AuthView {
            status: match save_error {
                Some(e) => "Key loaded but token save failed: "@ + e,
                None => "Cursor API key loaded."@,
            },
            show_token_field: false,
            ..d
        },
        Some(e) => AuthView { status: e, show_token_field: true, ..d },
    }
}

impl AuthDialog {
    /// The dialog when it opens.
    pub fn open(config: &OidcLoginConfig, address: String, stored: String, has_key: bool) -> (r:
        AuthDialog)
        ensures
            r@ == auth_dialog_for(config@, address@, stored@, has_key),
    {
        AuthDialog {
            show_token_field: is_empty(stored.as_str()),
            address,
            bao_token: stored,
            auth_method: AuthMethod::Oidc,
            oidc_mount: config.mount.clone(),
            oidc_role: config.role.clone(),
            oidc_busy: false,
            oidc_auth_url: "".to_owned(),
            status: if has_key {
                "CURSOR_API_KEY is already set in the environment.".to_owned()
            } else {
                "".to_owned()
            },
        }
    }

    /// Forgets the sign-in in the browser.
    pub fn cancel_oidc(&mut self)
        ensures
            final(self)@ == oidc_cancelled(old(self)@),
    {
        self.oidc_busy = false;
        self.oidc_auth_url = "".to_owned();
    }

    /// Chooses how to sign in. Choosing the token ends a sign-in in the browser.
    pub fn choose_method(&mut self, method: AuthMethod)
        ensures
            final(self)@ == match method {
                AuthMethod::Token => (AuthView {
                    auth_method: method,
                    ..oidc_cancelled(old(self)@)
                }),
                AuthMethod::Oidc => (AuthView { auth_method: method, ..old(self)@ }),
            },
    {
        match method {
            AuthMethod::Token => self.cancel_oidc(),
            AuthMethod::Oidc => {},
        }
        self.auth_method = method;
    }

    /// Asks for another token than the stored one.
    pub fn use_different_token(&mut self)
        ensures
            final(self)@ == (AuthView {
                show_token_field: true,
                bao_token: ""@,
                ..old(self)@
            }),
    {
        self.show_token_field = true;
        self.bao_token = "".to_owned();
    }

    /// The configuration with which to sign in in the browser: what the dialog
    /// says, and the port that the environment asks for.
    pub fn oidc_config(&self, env: &OidcLoginConfig) -> (r: OidcLoginConfig)
        ensures
            r@ == (ConfigView {
                address: self@.address,
                mount: self@.oidc_mount,
                role: self@.oidc_role,
                listen_port: env@.listen_port,
            }),
    {
        OidcLoginConfig {
            address: self.address.clone(),
            mount: self.oidc_mount.clone(),
            role: self.oidc_role.clone(),
            listen_port: env.listen_port,
        }
    }

    /// Takes in that a sign-in in the browser began, or why it did not. One
    /// that was under way was ended before.
    pub fn oidc_started(&mut self, outcome: Result<(), String>)
        ensures
            final(self)@ == match outcome {
                Ok(_) => (AuthView {
                    oidc_busy: true,
                    status: "Waiting for OIDC login in browser…"@,
                    ..oidc_cancelled(old(self)@)
                }),
                Err(e) => (AuthView { status: e@, ..oidc_cancelled(old(self)@) }),
            },
    {
        self.cancel_oidc();
        match outcome {
            Ok(_) => {
                self.oidc_busy = true;
                self.status = "Waiting for OIDC login in browser…".to_owned();
            },
            Err(e) => {
                self.status = e;
            },
        }
    }

    /// Takes in what a sign-in in the browser reported. Hands out the token,
    /// with which the API key is to be fetched.
    pub fn oidc_event(&mut self, event: OidcLoginEvent) -> (r: Option<String>)
        ensures
            final(self)@ == oidc_reported(old(self)@, event@),
            match event@ {
                EventView::Success { token } => opt_text(r) == Some(token),
                _ => r is None,
            },
    {
        match event {
            OidcLoginEvent::Ready { auth_url, browser_error } => {
                self.oidc_auth_url = auth_url;
                self.status = match browser_error {
                    Some(e) => concat("Open this URL manually:\n", e.as_str()),
                    None => "Complete login in your browser, then return here…".to_owned(),
                };
                None
            },
            OidcLoginEvent::Success { token } => {
                self.cancel_oidc();
                self.bao_token = token.clone();
                self.status = "Fetching Cursor API key…".to_owned();
                Some(token)
            },
            OidcLoginEvent::Failed(m) => {
                self.cancel_oidc();
                self.status = m;
                None
            },
        }
    }

    /// Takes in that the API key was fetched with the token from the browser,
    /// or why it was not.
    pub fn complete(&mut self, error: Option<String>)
        ensures
            final(self)@ == login_completed(old(self)@, opt_text(error)),
    {
        match error {
            None => {
                self.cancel_oidc();
                self.status = "Cursor API key loaded.".to_owned();
                self.show_token_field = false;
            },
            Some(e) => {
                self.status = e;
                self.show_token_field = true;
            },
        }
    }

    /// Asks to use the token in the dialog. Hands out the address and the token
    /// with which the API key is to be fetched; none where one is missing.
    pub fn try_token(&mut self) -> (r: Option<(String, String)>)
        ensures
            final(self)@ == token_tried(old(self)@).0,
            match r {
                Some((address, token)) => token_tried(old(self)@).1 && address@ == trimmed(
                    old(self)@.address,
                ) && token@ == trimmed(old(self)@.bao_token),
                None => !token_tried(old(self)@).1,
            },
    {
        let address = trim(self.address.as_str()).to_owned();
        let token = trim(self.bao_token.as_str()).to_owned();
        if is_empty(address.as_str()) {
            self.status = "Server address is required.".to_owned();
            return None;
        }
        if is_empty(token.as_str()) {
            self.status = "OpenBao token is required.".to_owned();
            self.show_token_field = true;
            return None;
        }
        self.status = "Fetching Cursor API key…".to_owned();
        Some((address, token))
    }

    /// Takes in that the API key was fetched with the token in the dialog, or
    /// why it was not; and why the token could not be stored.
    pub fn token_result(&mut self, error: Option<String>, save_error: Option<String>)
        ensures
            final(self)@ == token_used(old(self)@, opt_text(error), opt_text(save_error)),
    {
        match error {
            None => {
                self.status = match save_error {
                    Some(e) => concat("Key loaded but token save failed: ", e.as_str()),
                    None => "Cursor API key loaded.".to_owned(),
                };
                self.show_token_field = false;
            },
            Some(e) => {
                self.status = e;
                self.show_token_field = true;
            },
        }
    }
}

/// Resuming starts the chosen session, and no other: in its workspace, under its id and
/// title, with the model and the permissions of the dialog, and without a prompt.
pub proof fn law_resume_starts_the_chosen_session(d: ResumeView, k: int)
    requires
        0 <= k < d.chats.len(),
        d.selected == Some(d.chats[k].id),
        forall|j: int| 0 <= j < k ==> (#[trigger] d.chats[j]).id != d.chats[k].id,
    ensures
        ({
            let c = d.chats[k];
            if c.cwd is Some && trimmed(c.cwd->0).len() > 0 {
                &&& resume_draft(d) is Ok
                &&& resume_draft(d)->Ok_0.resume_chat_id == Some(c.id)
                &&& resume_draft(d)->Ok_0.tab_title == Some(c.title)
                &&& resume_draft(d)->Ok_0.workspace == c.cwd->0
                &&& resume_draft(d)->Ok_0.model == d.model
                &&& resume_draft(d)->Ok_0.trust == d.trust
                &&& resume_draft(d)->Ok_0.force == d.force
                &&& resume_draft(d)->Ok_0.prompt.len() == 0
                &&& resume_draft(d)->Ok_0.images.len() == 0
            } else {
                resume_draft(d) == Err::<DraftView, Seq<char>>(
                    "selected chat has no workspace path; cannot resume"@,
                )
            }
        }),
{
    reveal_strlit("");
    lemma_chat_with_is(d.chats, d.chats[k].id, k);
}

/// The first session with the id is found.
proof fn lemma_chat_with_is(chats: Seq<ChatView>, id: Seq<char>, k: int)
    requires
        0 <= k < chats.len(),
        chats[k].id == id,
        forall|j: int| 0 <= j < k ==> (#[trigger] chats[j]).id != id,
    ensures
        chat_with(chats, id) == Some(chats[k]),
    decreases chats.len(),
{
    if k > 0 {
        let t = chats.drop_first();
        assert(chats[0].id != id);
        assert forall|j: int| 0 <= j < k - 1 implies (#[trigger] t[j]).id != id by {
            assert(chats[j + 1].id != id);
        }
        lemma_chat_with_is(t, id, k - 1);
    }
}

/// Without a choice, or with one that is not listed, nothing is resumed.
pub proof fn law_nothing_is_resumed_without_choice(d: ResumeView)
    requires
        d.selected is None || !has_chat(d.chats, d.selected->0),
    ensures
        resume_draft(d) == Err::<DraftView, Seq<char>>("select a chat to resume"@),
{
    if let Some(id) = d.selected {
        lemma_chat_with_none(d.chats, id);
    }
}

/// An id that no session has is not found.
proof fn lemma_chat_with_none(chats: Seq<ChatView>, id: Seq<char>)
    requires
        !has_chat(chats, id),
    ensures
        chat_with(chats, id) is None,
    decreases chats.len(),
{
    if chats.len() > 0 {
        assert(chats[0].id != id);
        assert(!has_chat(chats.drop_first(), id)) by {
            if has_chat(chats.drop_first(), id) {
                let j = choose|j: int|
                    0 <= j < chats.drop_first().len() && (#[trigger] chats.drop_first()[j]).id
                        == id;
                assert(chats[j + 1].id == id);
            }
        }
        lemma_chat_with_none(chats.drop_first(), id);
    }
}

/// The filter shows, in their order, exactly the sessions whose title, workspace or id
/// holds what is sought, in lower case on both sides; an empty filter shows all.
pub proof fn law_filter_shows_what_is_sought(d: ResumeView)
    ensures
        ({
            let q = lowercase(trimmed(d.filter));
            &&& filtered_chats(d) == d.chats.filter(
                |c: ChatView|
                    q.len() == 0 || occurs(lowercase(c.title), q) || occurs(lowercase(c.id), q)
                        || occurs(
                        lowercase(
                            if c.cwd is Some && c.cwd->0.len() > 0 {
                                c.cwd->0
                            } else {
                                "(no workspace)"@
                            },
                        ),
                        q,
                    ),
            )
            &&& q.len() == 0 ==> filtered_chats(d) == d.chats
        }),
{
    let q = lowercase(trimmed(d.filter));
    lemma_matching_is_filter(d.chats, q);
    if q.len() == 0 {
        lemma_match_all(d.chats, q);
    }
}

/// The sessions that match, as a filter.
proof fn lemma_matching_is_filter(chats: Seq<ChatView>, q: Seq<char>)
    ensures
        matching_chats(chats, q) == chats.filter(
            |c: ChatView|
                q.len() == 0 || occurs(lowercase(c.title), q) || occurs(lowercase(c.id), q)
                    || occurs(
                    lowercase(
                        if c.cwd is Some && c.cwd->0.len() > 0 {
                            c.cwd->0
                        } else {
                            "(no workspace)"@
                        },
                    ),
                    q,
                ),
        ),
    decreases chats.len(),
{
    reveal(Seq::filter);
    if chats.len() > 0 {
        lemma_matching_is_filter(chats.drop_last(), q);
    }
}

/// What was loaded is listed, and an error is told in place of a list. A reload keeps the
/// choice where it is still listed. Nothing else in the dialog changes.
pub proof fn law_load_fills_the_list(
    d: ResumeView,
    chats: Seq<ChatView>,
    e: Seq<char>,
)
    ensures
        loaded(d, Ok(chats)) == (ResumeView { chats, load_error: None, loading: false, ..d }),
        loaded(d, Err(e)) == (ResumeView {
            chats: Seq::empty(),
            load_error: Some(e),
            loading: false,
            ..d
        }),
        d.selected is Some && has_chat(chats, d.selected->0) ==> reloaded(d, Ok(chats)) == loaded(
            d,
            Ok(chats),
        ),
        d.selected is Some && !has_chat(chats, d.selected->0) ==> reloaded(d, Ok(chats)).selected
            is None,
        d.selected is None ==> reloaded(d, Ok(chats)) == loaded(d, Ok(chats)),
{
}

/// A dialog that loads has no list and no choice yet, and trusts as a new draft does.
pub proof fn law_resume_dialog_opens_empty()
    ensures
        ({
            let d = loading_dialog();
            &&& d.loading && d.trust && !d.force
            &&& d.chats.len() == 0 && d.selected is None && d.load_error is None
            &&& d.filter.len() == 0 && d.model.len() == 0
        }),
{
    reveal_strlit("");
}

/// A name is edited without the mark that the agent has exited.
pub proof fn law_rename_begins_with_bare_title(id: u64, base: Seq<char>, title: Seq<char>)
    ensures
        rename_dialog_for(id, base + " (exited)"@).draft == base,
        !crate::text::ends(title, " (exited)"@) ==> rename_dialog_for(id, title).draft == title,
        rename_dialog_for(id, title).id == id,
{
    let t = base + " (exited)"@;
    let e = " (exited)"@;
    assert(t.skip(t.len() - e.len()) =~= e);
    assert(t.take(t.len() - e.len()) =~= base);
}

/// A past session is told by its workspace and its age.
pub proof fn law_chat_meta_tells_place_and_age(c: ChatView, now_ms: u64)
    ensures
        c.cwd is Some && c.cwd->0.len() > 0 ==> meta_of(c, now_ms) == c.cwd->0 + " · "@ + age_of(
            c.updated_at_ms,
            now_ms,
        ),
        c.cwd is None || c.cwd->0.len() == 0 ==> meta_of(c, now_ms) == "(no workspace)"@ + " · "@
            + age_of(c.updated_at_ms, now_ms),
{
}

/// The sign-in dialog opens with the server, the stored token and the settings of the
/// environment, and asks for a token only where none is stored.
pub proof fn law_auth_dialog_opens_with_what_is_known(
    config: ConfigView,
    address: Seq<char>,
    stored: Seq<char>,
    has_key: bool,
)
    ensures
        ({
            let d = auth_dialog_for(config, address, stored, has_key);
            &&& d.address == address && d.bao_token == stored
            &&& d.show_token_field <==> stored.len() == 0
            &&& d.oidc_mount == config.mount && d.oidc_role == config.role
            &&& d.auth_method == AuthMethod::Oidc && !d.oidc_busy && d.oidc_auth_url.len() == 0
            &&& has_key ==> d.status == "CURSOR_API_KEY is already set in the environment."@
            &&& !has_key ==> d.status.len() == 0
        }),
{
    reveal_strlit("");
}

/// What a sign-in reports is shown: the address to open, and why no browser opened; the
/// token it gave; or why it failed. A verdict ends the wait, and only a success changes
/// the token.
pub proof fn law_sign_in_is_shown(d: AuthView, url: Seq<char>, text: Seq<char>)
    ensures
        ({
            let r = oidc_reported(d, EventView::Ready { auth_url: url, browser_error: None });
            &&& r.oidc_auth_url == url && r.oidc_busy == d.oidc_busy && r.bao_token == d.bao_token
            &&& r.status == "Complete login in your browser, then return here…"@
        }),
        ({
            let r = oidc_reported(d, EventView::Ready { auth_url: url, browser_error: Some(text) });
            &&& r.oidc_auth_url == url && r.oidc_busy == d.oidc_busy && r.bao_token == d.bao_token
            &&& r.status == "Open this URL manually:\n"@ + text
        }),
        ({
            let r = oidc_reported(d, EventView::Success { token: text });
            &&& r.bao_token == text && !r.oidc_busy && r.oidc_auth_url.len() == 0
            &&& r.status == "Fetching Cursor API key…"@
        }),
        ({
            let r = oidc_reported(d, EventView::Failed(text));
            &&& r.bao_token == d.bao_token && !r.oidc_busy && r.oidc_auth_url.len() == 0
            &&& r.status == text
        }),
        oidc_cancelled(d) == (AuthView { oidc_busy: false, oidc_auth_url: ""@, ..d }),
{
    reveal_strlit("");
}

/// A key that was loaded ends the sign-in; an error is told, and the token asked for again.
pub proof fn law_loaded_key_ends_sign_in(d: AuthView, e: Seq<char>, s: Seq<char>)
    ensures
        login_completed(d, None) == (AuthView {
            status: "Cursor API key loaded."@,
            show_token_field: false,
            oidc_busy: false,
            oidc_auth_url: ""@,
            ..d
        }),
        login_completed(d, Some(e)) == (AuthView { status: e, show_token_field: true, ..d }),
        token_used(d, None, None) == (AuthView {
            status: "Cursor API key loaded."@,
            show_token_field: false,
            ..d
        }),
        token_used(d, None, Some(s)) == (AuthView {
            status: "Key loaded but token save failed: "@ + s,
            show_token_field: false,
            ..d
        }),
        token_used(d, Some(e), None) == (AuthView { status: e, show_token_field: true, ..d }),
{
}

/// A token is tried only with a server and a token; what is missing is asked for.
pub proof fn law_token_needs_server_and_token(d: AuthView)
    ensures
        token_tried(d).1 <==> trimmed(d.address).len() > 0 && trimmed(d.bao_token).len() > 0,
        trimmed(d.address).len() == 0 ==> token_tried(d).0 == (AuthView {
            status: "Server address is required."@,
            ..d
        }),
        trimmed(d.address).len() > 0 && trimmed(d.bao_token).len() == 0 ==> token_tried(d).0 == (
        AuthView { status: "OpenBao token is required."@, show_token_field: true, ..d }),
        token_tried(d).1 ==> token_tried(d).0 == (AuthView {
            status: "Fetching Cursor API key…"@,
            ..d
        }),
{
}

/// A session can be resumed once one is chosen, the list is there and no other is started.
pub proof fn law_resume_waits_for_choice(d: ResumeDialog, starting: bool, r: bool)
    requires
        call_ensures(ResumeDialog::can_resume, (&d, starting), r),
    ensures
        r <==> d@.selected is Some && !d@.loading && !starting,
{
}

/// A name can be applied, a script converted and a result copied once there is one; a
/// script not while another is being converted.
pub proof fn law_buttons_need_something_to_act_on(
    rename: RenameDialog,
    convert: ConvertDialog,
    apply: bool,
    run: bool,
    copy: bool,
)
    requires
        call_ensures(RenameDialog::can_apply, (&rename,), apply),
        call_ensures(ConvertDialog::can_convert, (&convert,), run),
        call_ensures(ConvertDialog::can_copy, (&convert,), copy),
    ensures
        apply <==> trimmed(rename@.draft).len() > 0,
        run <==> trimmed(convert@.bash).len() > 0 && !convert@.converting,
        copy <==> trimmed(convert@.nushell).len() > 0,
{
}

/// The sign-in is configured by what stands in the dialog, and listens on the port of the
/// environment.
pub proof fn law_dialog_configures_sign_in(d: AuthDialog, env: OidcLoginConfig, r: OidcLoginConfig)
    requires
        call_ensures(AuthDialog::oidc_config, (&d, &env), r),
    ensures
        r@.address == d@.address,
        r@.mount == d@.oidc_mount,
        r@.role == d@.oidc_role,
        r@.listen_port == env@.listen_port,
{
}

/// A new converter is empty and not at work.
pub proof fn law_converter_opens_empty()
    ensures
        blank_convert().bash.len() == 0,
        blank_convert().nushell.len() == 0,
        blank_convert().error is None,
        !blank_convert().converting,
{
    reveal_strlit("");
}

/// A dialog for a name or for a script takes the keys at once.
pub proof fn law_text_dialogs_take_the_keys(id: u64, title: Seq<char>)
    ensures
        rename_dialog_for(id, title).focus,
        blank_convert().focus,
{
}

} // verus!
