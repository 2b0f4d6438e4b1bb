//! Agent sessions: how they are started, what past ones can be resumed, and
//! the state of a tab.
use crate::bytes::{lossy_text, to_lossy};
use crate::digits::{decimal, to_decimal};
use crate::json::{json_parsed, member_bool, member_str, member_u64, parse_json, Json, JsonView};
use crate::letters::{ascii_up, to_upper, uppercase};
use crate::path::{below, file_name, join_path, name_of};
use crate::split::{lemma_texts_push, texts};
use crate::subagents::{file_header, FileView, SessionFile};
use crate::text::{
    chars_of, concat, concat3, copy_opt, is_empty, is_whitespace, is_ws, nonblank, opt_text,
    opt_view, or_else, string_of, trim, trim_opt, trimmed,
};
use crate::transcript::{parse_session_file, session_of};
use vstd::prelude::*;
use vstd::string::*;
use vstd::utf8::*;

verus! {

/// The agent program that runs in a session.
#[derive(Debug, Clone, Copy, PartialEq, Eq, Structural)]
pub enum AgentCli {
    Prime,
    Cursor,
}

impl AgentCli {
    /// The name of the program.
    pub open spec fn program_of(self) -> Seq<char> {
        match self {
            AgentCli::Prime => "prime-agent"@,
            AgentCli::Cursor => "cursor-agent"@,
        }
    }

    /// The name of the program.
    pub fn program(self) -> (r: &'static str)
        ensures
            r@ == self.program_of(),
    {
        match self {
            AgentCli::Prime => "prime-agent",
            AgentCli::Cursor => "cursor-agent",
        }
    }

    /// The environment variable that names another program.
    pub open spec fn variable_of(self) -> Seq<char> {
        match self {
            AgentCli::Prime => "PRIME_AGENT"@,
            AgentCli::Cursor => "CURSOR_AGENT"@,
        }
    }

    /// The environment variable that names another program.
    pub fn variable(self) -> (r: &'static str)
        ensures
            r@ == self.variable_of(),
    {
        match self {
            AgentCli::Prime => "PRIME_AGENT",
            AgentCli::Cursor => "CURSOR_AGENT",
        }
    }

    /// The option that names the workspace.
    pub open spec fn workspace_flag_of(self) -> Seq<char> {
        match self {
            AgentCli::Prime => "--cwd"@,
            AgentCli::Cursor => "--workspace"@,
        }
    }

    /// The option that names the workspace.
    pub fn workspace_flag(self) -> (r: &'static str)
        ensures
            r@ == self.workspace_flag_of(),
    {
        match self {
            AgentCli::Prime => "--cwd",
            AgentCli::Cursor => "--workspace",
        }
    }
}

/// The program to run: the one that the environment names; else the usual one,
/// where it is on the path.
pub open spec fn binary_of(cli: AgentCli, named: Option<Seq<char>>, on_path: bool) -> Result<
    Seq<char>,
    Seq<char>,
> {
    match nonblank(named) {
        Some(p) => Ok(p),
        None => if on_path {
            Ok(cli.program_of())
        } else {
            Err(
                cli.program_of() + " not found (set "@ + cli.variable_of() + " or install "@
                    + cli.program_of() + " on PATH)"@,
            )
        },
    }
}

/// The program to run, given the environment variable that names it and whether
/// the usual one is on the path. There is no falling back to a program that is
/// merely called `agent`.
pub fn resolve_agent_binary(cli: AgentCli, named: Option<&str>, on_path: bool) -> (r: Result<
    String,
    String,
>)
    ensures
        crate::bao::result_text(r) == binary_of(cli, opt_view(named), on_path),
{
    if let Some(p) = trim_opt(named) {
        return Ok(p);
    }
    if on_path {
        return Ok(cli.program().to_owned());
    }
    let mut out = concat3(cli.program(), " not found (set ", cli.variable());
    out.append(" or install ");
    out.append(cli.program());
    out.append(" on PATH)");
    Err(out)
}

/// The path that `which` printed, given whether it succeeded.
pub fn which(succeeded: bool, stdout: &Vec<u8>) -> (r: Option<String>)
    ensures
        opt_text(r) == if succeeded {
            nonblank(Some(lossy_text(stdout@)))
        } else {
            None
        },
{
    if !succeeded {
        return None;
    }
    let text = to_lossy(stdout);
    trim_opt(Some(text.as_str()))
}

/// What the user asks of a new session, or of one to be resumed.
#[derive(Debug, Clone)]
pub struct NewSessionDraft {
    pub workspace: String,
    pub model: String,
    pub prompt: String,
    /// Files with images that go with the prompt.
    pub images: Vec<String>,
    pub trust: bool,
    pub force: bool,
    /// The session to resume, in which case the prompt is not used.
    pub resume_chat_id: Option<String>,
    /// A title for the tab.
    pub tab_title: Option<String>,
}

/// What a draft holds.
pub struct DraftView {
    pub workspace: Seq<char>,
    pub model: Seq<char>,
    pub prompt: Seq<char>,
    pub images: Seq<Seq<char>>,
    pub trust: bool,
    pub force: bool,
    pub resume_chat_id: Option<Seq<char>>,
    pub tab_title: Option<Seq<char>>,
}

impl View for NewSessionDraft {
    type V = DraftView;

    open spec fn view(&self) -> DraftView {
        DraftView {
            workspace: self.workspace@,
            model: self.model@,
            prompt: self.prompt@,
            images: texts(self.images@),
            trust: self.trust,
            force: self.force,
            resume_chat_id: opt_text(self.resume_chat_id),
            tab_title: opt_text(self.tab_title),
        }
    }
}

/// A draft for a new session in a directory.
pub open spec fn blank_draft(workspace: Seq<char>) -> DraftView {
    DraftView {
        workspace,
        model: ""@,
        prompt: ""@,
        images: Seq::empty(),
        trust: true,
        force: false,
        resume_chat_id: None,
        tab_title: None,
    }
}

/// A copy of a list of texts.
pub fn copy_texts(v: &Vec<String>) -> (r: Vec<String>)
    ensures
        texts(r@) == texts(v@),
{
    broadcast use lemma_texts_push;

    let mut out: Vec<String> = Vec::new();
    let mut i: usize = 0;
    assert(texts(out@) =~= texts(v@).take(0));
    while i < v.len()
        invariant
            i <= v@.len(),
            texts(out@) == texts(v@).take(i as int),
        decreases v.len() - i,
    {
        let s = v[i].clone();
        out.push(s);
        assert(texts(v@).take(i + 1) =~= texts(v@).take(i as int).push(s@));
        i += 1;
    }
    assert(texts(v@).take(i as int) =~= texts(v@));
    out
}

impl NewSessionDraft {
    /// A draft for a new session in the current directory, where that is known.
    pub fn in_directory(cwd: Option<&str>) -> (r: NewSessionDraft)
        ensures
            r@ == blank_draft(
                match opt_view(cwd) {
                    Some(d) => d,
                    None => "."@,
                },
            ),
    {
        let workspace = match cwd {
            Some(d) => d.to_owned(),
            None => ".".to_owned(),
        };
        let r = NewSessionDraft {
            workspace,
            model: "".to_owned(),
            prompt: "".to_owned(),
            images: Vec::new(),
            trust: true,
            force: false,
            resume_chat_id: None,
            tab_title: None,
        };
        assert(texts(r.images@) =~= Seq::empty());
        r
    }

    /// A copy of the draft.
    pub fn copy(&self) -> (r: NewSessionDraft)
        ensures
            r@ == self@,
    {
        NewSessionDraft {
            workspace: self.workspace.clone(),
            model: self.model.clone(),
            prompt: self.prompt.clone(),
            images: copy_texts(&self.images),
            trust: self.trust,
            force: self.force,
            resume_chat_id: copy_opt(&self.resume_chat_id),
            tab_title: copy_opt(&self.tab_title),
        }
    }
}

/// A list of one, where the condition holds.
pub open spec fn listed_if(cond: bool, s: Seq<char>) -> Seq<Seq<char>> {
    if cond {
        seq![s]
    } else {
        Seq::empty()
    }
}

/// An option and its value, where there is one.
pub open spec fn option_if(flag: Seq<char>, v: Option<Seq<char>>) -> Seq<Seq<char>> {
    match v {
        Some(s) => seq![flag, s],
        None => Seq::empty(),
    }
}

/// The prompt to start the agent with. A session that the user resumes gets
/// none; a prompt with images is typed once the agent runs.
pub open spec fn start_prompt(d: DraftView) -> Option<Seq<char>> {
    if nonblank(d.resume_chat_id) is Some || d.images.len() > 0 {
        None
    } else {
        nonblank(Some(d.prompt))
    }
}

/// The arguments with which the agent is started. `chat_id` is the session to
/// go on with, if there is one: that which the user resumes, or one that was
/// just made for the new session.
pub open spec fn args_of(
    cli: AgentCli,
    d: DraftView,
    workspace: Seq<char>,
    chat_id: Option<Seq<char>>,
) -> Seq<Seq<char>> {
    seq![cli.workspace_flag_of(), workspace] + listed_if(d.trust, "--trust"@) + listed_if(
        d.force,
        "--force"@,
    ) + option_if("--model"@, nonblank(Some(d.model))) + option_if("--resume"@, nonblank(chat_id))
        + match start_prompt(d) {
        Some(p) => seq![p],
        None => Seq::empty(),
    }
}

/// The prompt to start the agent with.
fn prompt_arg(d: &NewSessionDraft) -> (r: Option<String>)
    ensures
        opt_text(r) == start_prompt(d@),
{
    assert(texts(d.images@).len() == d.images@.len());
    if d.images.len() > 0 {
        return None;
    }
    if let Some(id) = &d.resume_chat_id {
        if trim_opt(Some(id.as_str())).is_some() {
            return None;
        }
    }
    trim_opt(Some(d.prompt.as_str()))
}

/// The arguments with which the agent is started.
pub fn build_args(cli: AgentCli, draft: &NewSessionDraft, workspace: &str, chat_id: Option<&str>) -> (r:
    Vec<String>)
    ensures
        texts(r@) == args_of(cli, draft@, workspace@, opt_view(chat_id)),
{
    let mut args: Vec<String> = Vec::new();
    args.push(cli.workspace_flag().to_owned());
    args.push(workspace.to_owned());
    let ghost a0 = seq![cli.workspace_flag_of(), workspace@];
    assert(texts(args@) =~= a0);
    if draft.trust {
        args.push("--trust".to_owned());
    }
    let ghost a1 = a0 + listed_if(draft.trust, "--trust"@);
    assert(texts(args@) =~= a1);
    if draft.force {
        args.push("--force".to_owned());
    }
    let ghost a2 = a1 + listed_if(draft.force, "--force"@);
    assert(texts(args@) =~= a2);
    if let Some(model) = trim_opt(Some(draft.model.as_str())) {
        args.push("--model".to_owned());
        args.push(model);
    }
    let ghost a3 = a2 + option_if("--model"@, nonblank(Some(draft@.model)));
    assert(texts(args@) =~= a3);
    if let Some(id) = trim_opt(chat_id) {
        args.push("--resume".to_owned());
        args.push(id);
    }
    let ghost a4 = a3 + option_if("--resume"@, nonblank(opt_view(chat_id)));
    assert(texts(args@) =~= a4);
    if let Some(p) = prompt_arg(draft) {
        args.push(p);
    }
    assert(texts(args@) =~= args_of(cli, draft@, workspace@, opt_view(chat_id)));
    args
}

/// A session that the user resumes is never started with a prompt.
pub proof fn law_resumed_session_gets_no_prompt(cli: AgentCli, d: DraftView, e: DraftView, workspace: Seq<char>, chat_id: Option<Seq<char>>)
    requires
        nonblank(d.resume_chat_id) is Some,
        e == (DraftView { prompt: e.prompt, ..d }),
    ensures
        args_of(cli, d, workspace, chat_id) == args_of(cli, e, workspace, chat_id),
        seed_of(d) == seed_of(e),
{
}

/// The workspace is always named first, and a session to go on with is named
/// behind `--resume` where there is one.
pub proof fn law_args_name_workspace(
    cli: AgentCli,
    d: DraftView,
    workspace: Seq<char>,
    chat_id: Option<Seq<char>>,
)
    ensures
        args_of(cli, d, workspace, chat_id).len() >= 2,
        args_of(cli, d, workspace, chat_id)[0] == cli.workspace_flag_of(),
        args_of(cli, d, workspace, chat_id)[1] == workspace,
        nonblank(chat_id) matches Some(id) ==> exists|k: int|
            0 <= k && k + 1 < args_of(cli, d, workspace, chat_id).len() && #[trigger] args_of(
                cli,
                d,
                workspace,
                chat_id,
            )[k] == "--resume"@ && args_of(cli, d, workspace, chat_id)[k + 1] == id,
        nonblank(chat_id) is None ==> args_of(cli, d, workspace, chat_id) == args_of(
            cli,
            d,
            workspace,
            None,
        ),
{
    let args = args_of(cli, d, workspace, chat_id);
    let before = seq![cli.workspace_flag_of(), workspace] + listed_if(d.trust, "--trust"@)
        + listed_if(d.force, "--force"@) + option_if("--model"@, nonblank(Some(d.model)));
    if let Some(id) = nonblank(chat_id) {
        let k = before.len() as int;
        assert(args[k] == "--resume"@);
        assert(args[k + 1] == id);
    }
}

/// What to start for a new tab.
pub struct SpawnPlan {
    pub program: String,
    pub args: Vec<String>,
    pub workspace: String,
    pub title: String,
    /// The session's id; empty where it is not known yet.
    pub chat_id: String,
}

/// What a plan holds.
pub struct SpawnView {
    pub program: Seq<char>,
    pub args: Seq<Seq<char>>,
    pub workspace: Seq<char>,
    pub title: Seq<char>,
    pub chat_id: Seq<char>,
}

impl View for SpawnPlan {
    type V = SpawnView;

    open spec fn view(&self) -> SpawnView {
        SpawnView {
            program: self.program@,
            args: texts(self.args@),
            workspace: self.workspace@,
            title: self.title@,
            chat_id: self.chat_id@,
        }
    }
}

/// The first title of a tab: the one asked for, else the name of the workspace.
pub open spec fn first_title(d: DraftView) -> Seq<char> {
    match nonblank(d.tab_title) {
        Some(t) => t,
        None => match name_of(trimmed(d.workspace)) {
            Some(n) => n,
            None => "agent"@,
        },
    }
}

/// What to start for a draft, or why it cannot be started.
pub open spec fn spawn_of(
    cli: AgentCli,
    d: DraftView,
    is_dir: bool,
    program: Result<Seq<char>, Seq<char>>,
    made: Option<Seq<char>>,
) -> Result<SpawnView, Seq<char>> {
    let workspace = trimmed(d.workspace);
    if workspace.len() == 0 {
        Err("workspace path is required"@)
    } else if !is_dir {
        Err("workspace is not a directory: "@ + workspace)
    } else {
        match program {
            Err(e) => Err(e),
            Ok(p) => {
                let chat = or_else(nonblank(d.resume_chat_id), made);
                Ok(
                    SpawnView {
                        program: p,
                        args: args_of(cli, d, workspace, chat),
                        workspace,
                        title: first_title(d),
                        chat_id: match chat {
                            Some(c) => c,
                            None => ""@,
                        },
                    },
                )
            },
        }
    }
}

/// What a plan or an error holds.
pub open spec fn spawn_result(r: Result<SpawnPlan, String>) -> Result<SpawnView, Seq<char>> {
    match r {
        Ok(p) => Ok(p@),
        Err(e) => Err(e@),
    }
}

/// The first title of a tab.
fn make_title(d: &NewSessionDraft) -> (r: String)
    ensures
        r@ == first_title(d@),
{
    if let Some(t) = &d.tab_title {
        if let Some(t) = trim_opt(Some(t.as_str())) {
            return t;
        }
    }
    match file_name(trim(d.workspace.as_str())) {
        Some(n) => n,
        None => "agent".to_owned(),
    }
}

/// What to start for a draft, or why it cannot be started. `is_dir` says whether
/// the workspace is a directory, `program` is the agent's program or why it was
/// not found, and `made` a session that was made for the draft, if one was.
pub fn prepare(
    cli: AgentCli,
    draft: &NewSessionDraft,
    is_dir: bool,
    program: &Result<String, String>,
    made: Option<&str>,
) -> (r: Result<SpawnPlan, String>)
    ensures
        spawn_result(r) == spawn_of(
            cli,
            draft@,
            is_dir,
            crate::bao::result_text(*program),
            opt_view(made),
        ),
{
    let workspace = trim(draft.workspace.as_str());
    if is_empty(workspace) {
        return Err("workspace path is required".to_owned());
    }
    if !is_dir {
        return Err(concat("workspace is not a directory: ", workspace));
    }
    let program = match program {
        Ok(p) => p.clone(),
        Err(e) => return Err(e.clone()),
    };
    let resumed = match &draft.resume_chat_id {
        Some(id) => trim_opt(Some(id.as_str())),
        None => None,
    };
    let chat: Option<&str> = match &resumed {
        Some(id) => Some(id.as_str()),
        None => made,
    };
    let args = build_args(cli, draft, workspace, chat);
    let chat_id = match chat {
        Some(c) => c.to_owned(),
        None => "".to_owned(),
    };
    Ok(
        SpawnPlan {
            program,
            args,
            workspace: workspace.to_owned(),
            title: make_title(draft),
            chat_id,
        },
    )
}

/// Something to put into the composer of a started agent.
pub enum SeedInput {
    /// Put the image on the clipboard and paste it.
    Image(String),
    /// Type the text.
    Text(String),
    /// Send what was typed.
    Submit,
}

/// What a seed input holds.
pub enum SeedView {
    Image(Seq<char>),
    Text(Seq<char>),
    Submit,
}

impl View for SeedInput {
    type V = SeedView;

    open spec fn view(&self) -> SeedView {
        match self {
            SeedInput::Image(p) => SeedView::Image(p@),
            SeedInput::Text(t) => SeedView::Text(t@),
            SeedInput::Submit => SeedView::Submit,
        }
    }
}

/// What the inputs of a list hold.
pub open spec fn seeds_view(v: Seq<SeedInput>) -> Seq<SeedView> {
    v.map_values(|s: SeedInput| s@)
}

/// What is put into the composer of an agent that was started for a draft with
/// images: the images, then, unless a session is resumed, the prompt, which is sent.
pub open spec fn seed_of(d: DraftView) -> Seq<SeedView> {
    if d.images.len() == 0 {
        Seq::empty()
    } else {
        d.images.map_values(|p: Seq<char>| SeedView::Image(p)) + match (
            nonblank(d.resume_chat_id),
            nonblank(Some(d.prompt)),
        ) {
            (None, Some(p)) => seq![SeedView::Text(p), SeedView::Submit],
            _ => Seq::empty(),
        }
    }
}

/// What is put into the composer of an agent that was started for a draft.
pub fn composer_seed(draft: &NewSessionDraft) -> (r: Vec<SeedInput>)
    ensures
        seeds_view(r@) == seed_of(draft@),
{
    let mut out: Vec<SeedInput> = Vec::new();
    let ghost all = draft@.images.map_values(|p: Seq<char>| SeedView::Image(p));
    let mut i: usize = 0;
    assert(seeds_view(out@) =~= all.take(0));
    while i < draft.images.len()
        invariant
            i <= draft.images@.len(),
            all == draft@.images.map_values(|p: Seq<char>| SeedView::Image(p)),
            seeds_view(out@) == all.take(i as int),
        decreases draft.images.len() - i,
    {
        let ghost before = seeds_view(out@);
        let s = SeedInput::Image(draft.images[i].clone());
        out.push(s);
        proof {
            assert(seeds_view(out@) =~= before.push(s@));
            assert(all.take(i + 1) =~= all.take(i as int).push(s@));
        }
        i += 1;
    }
    assert(all.take(i as int) =~= all);
    let resumed = match &draft.resume_chat_id {
        Some(id) => trim_opt(Some(id.as_str())).is_some(),
        None => false,
    };
    if draft.images.len() > 0 && !resumed {
        if let Some(p) = trim_opt(Some(draft.prompt.as_str())) {
            out.push(SeedInput::Text(p));
            out.push(SeedInput::Submit);
        }
    }
    assert(seeds_view(out@) =~= seed_of(draft@));
    out
}

/// The prompt of a new session is given to the agent once: as the last argument;
/// or, with images, typed after them and sent. The prompt of a session that is
/// resumed is not given; its images are.
pub proof fn law_prompt_is_given_once(
    cli: AgentCli,
    d: DraftView,
    workspace: Seq<char>,
    chat_id: Option<Seq<char>>,
)
    requires
        nonblank(Some(d.prompt)) is Some,
    ensures
        ({
            let prompt = trimmed(d.prompt);
            let blank = DraftView { prompt: ""@, ..d };
            let args = args_of(cli, d, workspace, chat_id);
            let seed = seed_of(d);
            let resumed = nonblank(d.resume_chat_id) is Some;
            if resumed {
                &&& args == args_of(cli, blank, workspace, chat_id)
                &&& seed == d.images.map_values(|p: Seq<char>| SeedView::Image(p))
            } else if d.images.len() > 0 {
                &&& args == args_of(cli, blank, workspace, chat_id)
                &&& seed.len() == d.images.len() + 2
                &&& forall|i: int|
                    0 <= i < d.images.len() ==> #[trigger] seed[i] == SeedView::Image(d.images[i])
                &&& seed[d.images.len() as int] == SeedView::Text(prompt)
                &&& seed.last() == SeedView::Submit
            } else {
                &&& args == args_of(cli, blank, workspace, chat_id).push(prompt)
                &&& seed.len() == 0
            }
        }),
{
    let blank = DraftView { prompt: ""@, ..d };
    reveal_strlit("");
    assert(trimmed(""@).len() == 0);
    if nonblank(d.resume_chat_id) is Some {
        assert(seed_of(d) =~= d.images.map_values(|p: Seq<char>| SeedView::Image(p)));
    }
    if d.images.len() == 0 && nonblank(d.resume_chat_id) is None {
        assert(args_of(cli, d, workspace, chat_id) =~= args_of(
            cli,
            blank,
            workspace,
            chat_id,
        ).push(trimmed(d.prompt)));
    }
}

/// A past session that can be resumed.
#[derive(Debug, Clone)]
pub struct SavedChat {
    pub id: String,
    pub title: String,
    pub cwd: Option<String>,
    pub updated_at_ms: u64,
}

/// What a past session holds.
pub struct ChatView {
    pub id: Seq<char>,
    pub title: Seq<char>,
    pub cwd: Option<Seq<char>>,
    pub updated_at_ms: u64,
}

impl View for SavedChat {
    type V = ChatView;

    open spec fn view(&self) -> ChatView {
        ChatView {
            id: self.id@,
            title: self.title@,
            cwd: opt_text(self.cwd),
            updated_at_ms: self.updated_at_ms,
        }
    }
}

/// What the past sessions of a list hold.
pub open spec fn chats_view(v: Seq<SavedChat>) -> Seq<ChatView> {
    v.map_values(|c: SavedChat| c@)
}

/// What an optional past session holds.
pub open spec fn opt_chat(c: Option<SavedChat>) -> Option<ChatView> {
    match c {
        Some(x) => Some(x@),
        None => None,
    }
}

/// The seconds from one time to a later one; none where it is not later.
pub open spec fn age_secs(updated_at_ms: u64, now_ms: u64) -> nat {
    if now_ms > updated_at_ms {
        ((now_ms - updated_at_ms) / 1000) as nat
    } else {
        0
    }
}

/// How long ago a time is, in its largest unit.
pub open spec fn age_of(updated_at_ms: u64, now_ms: u64) -> Seq<char> {
    let secs = age_secs(updated_at_ms, now_ms);
    if secs < 60 {
        decimal(secs) + "s ago"@
    } else if secs < 3600 {
        decimal(secs / 60) + "m ago"@
    } else if secs < 86400 {
        decimal(secs / 3600) + "h ago"@
    } else {
        decimal(secs / 86400) + "d ago"@
    }
}

/// How long ago a time is, in its largest unit.
pub fn format_age(updated_at_ms: u64, now_ms: u64) -> (r: String)
    ensures
        r@ == age_of(updated_at_ms, now_ms),
{
    let secs: u64 = if now_ms > updated_at_ms {
        (now_ms - updated_at_ms) / 1000
    } else {
        0
    };
    if secs < 60 {
        concat(to_decimal(secs).as_str(), "s ago")
    } else if secs < 3600 {
        concat(to_decimal(secs / 60).as_str(), "m ago")
    } else if secs < 86400 {
        concat(to_decimal(secs / 3600).as_str(), "h ago")
    } else {
        concat(to_decimal(secs / 86400).as_str(), "d ago")
    }
}

/// Where a past session worked, in words.
pub open spec fn workspace_text(c: ChatView) -> Seq<char> {
    match c.cwd {
        Some(cwd) => if cwd.len() > 0 {
            cwd
        } else {
            "(no workspace)"@
        },
        None => "(no workspace)"@,
    }
}

impl SavedChat {
    /// How long ago the session was used last.
    pub fn age_label(&self, now_ms: u64) -> (r: String)
        ensures
            r@ == age_of(self@.updated_at_ms, now_ms),
    {
        format_age(self.updated_at_ms, now_ms)
    }

    /// Where the session worked, in words.
    pub fn workspace_label(&self) -> (r: String)
        ensures
            r@ == workspace_text(self@),
    {
        match &self.cwd {
            Some(cwd) => if is_empty(cwd.as_str()) {
                "(no workspace)".to_owned()
            } else {
                cwd.clone()
            },
            None => "(no workspace)".to_owned(),
        }
    }

    /// A copy of the record.
    pub fn copy(&self) -> (r: SavedChat)
        ensures
            r@ == self@,
    {
        SavedChat {
            id: self.id.clone(),
            title: self.title.clone(),
            cwd: copy_opt(&self.cwd),
            updated_at_ms: self.updated_at_ms,
        }
    }
}

/// The past session that a metadata record describes. One in which nothing was
/// said is not worth resuming.
pub open spec fn chat_of(path: Seq<char>, v: JsonView) -> Option<ChatView> {
    if member_bool(v, "hasConversation"@) != Some(true) {
        None
    } else {
        match name_of(path) {
            None => None,
            Some(id) => Some(
                ChatView {
                    id,
                    title: match nonblank(member_str(v, "title"@)) {
                        Some(t) => t,
                        None => "Untitled"@,
                    },
                    cwd: nonblank(member_str(v, "cwd"@)),
                    updated_at_ms: match or_else(
                        member_u64(v, "updatedAtMs"@),
                        member_u64(v, "createdAtMs"@),
                    ) {
                        Some(ms) => ms,
                        None => 0,
                    },
                },
            ),
        }
    }
}

/// The past session that the text of a metadata record describes.
pub open spec fn chat_of_text(path: Seq<char>, text: Seq<char>) -> Option<ChatView> {
    match json_parsed(text) {
        Ok(v) => chat_of(path, v),
        Err(_) => None,
    }
}

/// The past session that a metadata record describes.
pub fn saved_chat_in(path: &str, v: &Json) -> (r: Option<SavedChat>)
    ensures
        opt_chat(r) == chat_of(path@, v@),
{
    match v.get_bool("hasConversation") {
        Some(true) => {},
        _ => return None,
    }
    let id = match file_name(path) {
        Some(id) => id,
        None => return None,
    };
    let title = match trim_opt(v.get_str("title")) {
        Some(t) => t,
        None => "Untitled".to_owned(),
    };
    let updated_at_ms: u64 = match v.get_u64("updatedAtMs") {
        Some(ms) => ms,
        None => match v.get_u64("createdAtMs") {
            Some(ms) => ms,
            None => 0,
        },
    };
    Some(SavedChat { id, title, cwd: trim_opt(v.get_str("cwd")), updated_at_ms })
}

/// The past session that the text of a metadata record describes; `path` is the
/// directory of the session.
pub fn parse_saved_chat(path: &str, text: &str) -> (r: Option<SavedChat>)
    ensures
        opt_chat(r) == chat_of_text(path@, text@),
{
    match parse_json(text) {
        Ok(v) => saved_chat_in(path, &v),
        Err(_) => None,
    }
}

/// The past session that a session file records. One in which nothing was asked
/// is not worth resuming.
pub open spec fn chat_of_file(f: FileView) -> Option<ChatView> {
    let p = session_of(f.lines, f.mtime_ms);
    match file_header(f.header_line) {
        Some(h) => match p.first_user_goal {
            Some(goal) => match or_else(h.id, crate::path::stem_of(f.path)) {
                Some(id) => Some(
                    ChatView {
                        id,
                        title: match p.name {
                            Some(n) => n,
                            None => goal,
                        },
                        cwd: nonblank(h.cwd),
                        updated_at_ms: match p.updated_at_ms {
                            Some(ms) => ms,
                            None => 0,
                        },
                    },
                ),
                None => None,
            },
            None => None,
        },
        None => None,
    }
}

/// The past session that a session file records.
pub fn chat_from_file(f: &SessionFile) -> (r: Option<SavedChat>)
    ensures
        opt_chat(r) == chat_of_file(f@),
{
    let header = match &f.header_line {
        Some(l) => match crate::transcript::read_session_header(l.as_str()) {
            Some(h) => h,
            None => return None,
        },
        None => return None,
    };
    let lines = match &f.lines {
        Some(v) => Some(v),
        None => None,
    };
    let p = parse_session_file(lines, f.mtime_ms);
    let goal = match p.first_user_goal {
        Some(g) => g,
        None => return None,
    };
    let id = match header.id {
        Some(id) => id,
        None => match crate::path::file_stem(f.path.as_str()) {
            Some(s) => s,
            None => return None,
        },
    };
    let title = match p.name {
        Some(n) => n,
        None => goal,
    };
    let cwd = match &header.cwd {
        Some(c) => trim_opt(Some(c.as_str())),
        None => None,
    };
    let updated_at_ms: u64 = match p.updated_at_ms {
        Some(ms) => ms,
        None => 0,
    };
    Some(SavedChat { id, title, cwd, updated_at_ms })
}

/// `x` put into a list by time, newest first, after those of the same time.
pub open spec fn put_by_age(s: Seq<ChatView>, x: ChatView) -> Seq<ChatView>
    decreases s.len(),
{
    if s.len() == 0 || s.last().updated_at_ms >= x.updated_at_ms {
        s.push(x)
    } else {
        put_by_age(s.drop_last(), x).push(s.last())
    }
}

/// A list by time, newest first; those of the same time stay in their order.
pub open spec fn newest_first(s: Seq<ChatView>) -> Seq<ChatView>
    decreases s.len(),
{
    if s.len() == 0 {
        s
    } else {
        put_by_age(newest_first(s.drop_last()), s.last())
    }
}

/// Where `put_by_age` puts a session.
proof fn lemma_put_age_at(s: Seq<ChatView>, x: ChatView, k: int)
    requires
        0 <= k <= s.len(),
        forall|i: int| k <= i < s.len() ==> (#[trigger] s[i]).updated_at_ms < x.updated_at_ms,
        k > 0 ==> s[k - 1].updated_at_ms >= x.updated_at_ms,
    ensures
        put_by_age(s, x) == s.insert(k, x),
    decreases s.len() - k,
{
    if k == s.len() {
        assert(s.insert(k, x) =~= s.push(x));
    } else {
        assert(s[s.len() - 1].updated_at_ms < x.updated_at_ms);
        lemma_put_age_at(s.drop_last(), x, k);
        assert(s.drop_last().insert(k, x).push(s.last()) =~= s.insert(k, x));
    }
}

/// Puts a past session into a list, newest first.
fn put_chat(v: &mut Vec<SavedChat>, x: SavedChat)
    ensures
        chats_view(final(v)@) == put_by_age(chats_view(old(v)@), x@),
{
    let mut k: usize = v.len();
    let ghost before = chats_view(v@);
    while k > 0 && v[k - 1].updated_at_ms < x.updated_at_ms
        invariant
            k <= v@.len(),
            before == chats_view(v@),
            forall|i: int| k <= i < before.len() ==> (#[trigger] before[i]).updated_at_ms < x@.updated_at_ms,
        decreases k,
    {
        k -= 1;
        assert(before[k as int].updated_at_ms == v@[k as int].updated_at_ms);
    }
    proof {
        if k > 0 {
            assert(before[k - 1].updated_at_ms == v@[k - 1].updated_at_ms);
        }
        lemma_put_age_at(before, x@, k as int);
        assert(chats_view(v@.insert(k as int, x)) =~= before.insert(k as int, x@));
    }
    v.insert(k, x);
}

/// Is the list in the order of time, newest first?
pub open spec fn ages_ordered(s: Seq<ChatView>) -> bool {
    forall|i: int, j: int|
        0 <= i <= j < s.len() ==> (#[trigger] s[i]).updated_at_ms >= (#[trigger] s[j]).updated_at_ms
}

/// Putting a session into an ordered list keeps the order and loses nothing.
proof fn lemma_put_age_keeps(s: Seq<ChatView>, x: ChatView)
    requires
        ages_ordered(s),
    ensures
        ages_ordered(put_by_age(s, x)),
        put_by_age(s, x).to_multiset() == s.to_multiset().insert(x),
        put_by_age(s, x).len() == s.len() + 1,
        forall|i: int|
            0 <= i < put_by_age(s, x).len() ==> #[trigger] put_by_age(s, x)[i] == x || s.contains(
                put_by_age(s, x)[i],
            ),
    decreases s.len(),
{
    broadcast use vstd::seq_lib::group_to_multiset_ensures;

    let r = put_by_age(s, x);
    if s.len() == 0 || s.last().updated_at_ms >= x.updated_at_ms {
        assert forall|i: int, j: int| 0 <= i <= j < r.len() implies (#[trigger] r[i]).updated_at_ms
            >= (#[trigger] r[j]).updated_at_ms by {
            if j == s.len() && i < j {
                assert(s[i].updated_at_ms >= s[s.len() - 1].updated_at_ms);
            }
        }
        assert forall|i: int| 0 <= i < r.len() implies #[trigger] r[i] == x || s.contains(r[i]) by {
            if i < s.len() {
                assert(s[i] == r[i]);
            }
        }
    } else {
        let t = s.drop_last();
        let q = put_by_age(t, x);
        lemma_put_age_keeps(t, x);
        assert(r == q.push(s.last()));
        assert forall|i: int, j: int| 0 <= i <= j < r.len() implies (#[trigger] r[i]).updated_at_ms
            >= (#[trigger] r[j]).updated_at_ms by {
            if j == q.len() && i < j {
                assert(q[i] == x || t.contains(q[i]));
                if q[i] != x {
                    let k = t.index_of(q[i]);
                    assert(s[k] == q[i]);
                    assert(s[k].updated_at_ms >= s[s.len() - 1].updated_at_ms);
                }
            } else if j < q.len() {
                assert(q[i] == r[i] && q[j] == r[j]);
            }
        }
        assert(s =~= t.push(s.last()));
        assert(r.to_multiset() =~= s.to_multiset().insert(x));
        assert forall|i: int| 0 <= i < r.len() implies #[trigger] r[i] == x || s.contains(r[i]) by {
            if i < q.len() {
                assert(r[i] == q[i]);
                if q[i] != x {
                    let k = t.index_of(q[i]);
                    assert(s[k] == q[i]);
                }
            } else {
                assert(s[s.len() - 1] == r[i]);
            }
        }
    }
}

/// The list, newest first, holds the same sessions, in the order of their times.
pub proof fn law_newest_first_sorts(s: Seq<ChatView>)
    ensures
        ages_ordered(newest_first(s)),
        newest_first(s).to_multiset() == s.to_multiset(),
        newest_first(s).len() == s.len(),
    decreases s.len(),
{
    broadcast use vstd::seq_lib::group_to_multiset_ensures;

    if s.len() > 0 {
        law_newest_first_sorts(s.drop_last());
        lemma_put_age_keeps(newest_first(s.drop_last()), s.last());
        assert(s =~= s.drop_last().push(s.last()));
    }
}

/// The past sessions that metadata records describe, in their order.
pub open spec fn chats_in(records: Seq<(Seq<char>, Seq<char>)>) -> Seq<ChatView>
    decreases records.len(),
{
    if records.len() == 0 {
        Seq::empty()
    } else {
        let before = chats_in(records.drop_last());
        match chat_of_text(records.last().0, records.last().1) {
            Some(c) => before.push(c),
            None => before,
        }
    }
}

/// The past sessions that metadata records describe, newest first. A record is
/// the directory of its session and its text.
pub fn list_saved_chats(records: &Vec<(String, String)>) -> (r: Vec<SavedChat>)
    ensures
        chats_view(r@) == newest_first(chats_in(crate::params::pairs_view(records@))),
{
    let mut out: Vec<SavedChat> = Vec::new();
    let mut i: usize = 0;
    let ghost all = crate::params::pairs_view(records@);
    assert(chats_view(out@) =~= newest_first(chats_in(all.take(0))));
    while i < records.len()
        invariant
            i <= records@.len(),
            all == crate::params::pairs_view(records@),
            chats_view(out@) == newest_first(chats_in(all.take(i as int))),
        decreases records.len() - i,
    {
        let ghost before = chats_in(all.take(i as int));
        proof {
            assert(all.take(i + 1).drop_last() =~= all.take(i as int));
            assert(all.take(i + 1).last() == (records@[i as int].0@, records@[i as int].1@));
        }
        if let Some(c) = parse_saved_chat(records[i].0.as_str(), records[i].1.as_str()) {
            assert(before.push(c@).drop_last() =~= before);
            put_chat(&mut out, c);
        }
        i += 1;
    }
    assert(all.take(i as int) =~= all);
    out
}

/// The past sessions that session files record, in their order.
pub open spec fn chats_in_files(files: Seq<FileView>) -> Seq<ChatView>
    decreases files.len(),
{
    if files.len() == 0 {
        Seq::empty()
    } else {
        let before = chats_in_files(files.drop_last());
        match chat_of_file(files.last()) {
            Some(c) => before.push(c),
            None => before,
        }
    }
}

/// The past sessions that session files record, newest first.
pub fn list_saved_sessions(files: &Vec<SessionFile>) -> (r: Vec<SavedChat>)
    ensures
        chats_view(r@) == newest_first(chats_in_files(crate::subagents::files_view(files@))),
{
    let mut out: Vec<SavedChat> = Vec::new();
    let mut i: usize = 0;
    let ghost all = crate::subagents::files_view(files@);
    assert(chats_view(out@) =~= newest_first(chats_in_files(all.take(0))));
    while i < files.len()
        invariant
            i <= files@.len(),
            all == crate::subagents::files_view(files@),
            chats_view(out@) == newest_first(chats_in_files(all.take(i as int))),
        decreases files.len() - i,
    {
        let ghost before = chats_in_files(all.take(i as int));
        proof {
            assert(all.take(i + 1).drop_last() =~= all.take(i as int));
            assert(all.take(i + 1).last() == files@[i as int]@);
        }
        if let Some(c) = chat_from_file(&files[i]) {
            assert(before.push(c@).drop_last() =~= before);
            put_chat(&mut out, c);
        }
        i += 1;
    }
    assert(all.take(i as int) =~= all);
    out
}

/// The directory of the metadata records, given the home directory.
pub fn chats_root(home: Option<&str>) -> (r: Result<String, String>)
    ensures
        match opt_view(home) {
            Some(h) => r matches Ok(p) && p@ == below(below(h, ".cursor"@), "chats"@),
            None => r matches Err(e) && e@ == "HOME is unset; cannot find ~/.cursor/chats"@,
        },
{
    match home {
        Some(h) => {
            let a = join_path(h, ".cursor");
            Ok(join_path(a.as_str(), "chats"))
        },
        None => Err("HOME is unset; cannot find ~/.cursor/chats".to_owned()),
    }
}

/// A character in upper case, which may be several.
pub open spec fn upper_of(c: char) -> Seq<char> {
    if c <= '\u{7f}' {
        seq![ascii_up(c)]
    } else {
        uppercase(seq![c])
    }
}

/// Does a word begin at a place of a text?
pub open spec fn begins_word(s: Seq<char>, i: int) -> bool {
    !is_ws(s[i]) && (i == 0 || is_ws(s[i - 1]))
}

/// A text with the first character of each word in upper case.
pub open spec fn title_cased(s: Seq<char>) -> Seq<char>
    decreases s.len(),
{
    if s.len() == 0 {
        Seq::empty()
    } else {
        title_cased(s.drop_last()) + if begins_word(s, s.len() - 1) {
            upper_of(s.last())
        } else {
            seq![s.last()]
        }
    }
}

/// A title with the first character of each word in upper case. The rest of
/// each word, and the white space between words, stays as it is.
pub fn title_case_words(s: &str) -> (r: String)
    ensures
        r@ == title_cased(s@),
{
    let cs = chars_of(s);
    let mut out = String::new();
    let mut i: usize = 0;
    assert(out@ =~= title_cased(s@.take(0)));
    while i < cs.len()
        invariant
            i <= cs@.len(),
            cs@ == s@,
            out@ == title_cased(s@.take(i as int)),
        decreases cs.len() - i,
    {
        let n: usize = cs.len();
        assert(i < n);
        let ghost before = s@.take(i as int);
        let ghost now = s@.take(i + 1);
        proof {
            assert(now.drop_last() =~= before);
            assert(now.last() == cs@[i as int]);
            assert(i > 0 ==> now[i - 1] == cs@[i - 1]);
        }
        let first = !is_whitespace(cs[i]) && (i == 0 || is_whitespace(cs[i - 1]));
        assert(first == begins_word(now, i as int));
        if first {
            let c = string_of(&cs, i, i + 1);
            let up = to_upper(c.as_str());
            proof {
                assert(c@ =~= seq![cs@[i as int]]);
                if cs@[i as int] <= '\u{7f}' {
                    assert(is_ascii_chars(c@));
                    assert(up@ =~= seq![ascii_up(cs@[i as int])]);
                }
            }
            out.append(up.as_str());
        } else {
            out.push(cs[i]);
            assert(out@ =~= title_cased(before) + seq![now.last()]);
        }
        i += 1;
    }
    assert(s@.take(i as int) =~= s@);
    out
}

/// An ASCII title keeps its length, and only letters that begin a word change.
proof fn lemma_ascii_title(s: Seq<char>)
    requires
        is_ascii_chars(s),
    ensures
        title_cased(s).len() == s.len(),
        forall|i: int|
            0 <= i < s.len() ==> #[trigger] title_cased(s)[i] == if begins_word(s, i) {
                ascii_up(s[i])
            } else {
                s[i]
            },
    decreases s.len(),
{
    if s.len() > 0 {
        let t = s.drop_last();
        lemma_ascii_title(t);
        assert(s.last() <= '\u{7f}');
        assert forall|i: int| 0 <= i < s.len() implies #[trigger] title_cased(s)[i]
            == if begins_word(s, i) {
            ascii_up(s[i])
        } else {
            s[i]
        } by {
            if i < t.len() {
                assert(title_cased(s)[i] == title_cased(t)[i]);
                assert(begins_word(t, i) == begins_word(s, i));
            }
        }
    }
}

/// Giving an ASCII title its capitals twice is giving them once.
pub proof fn law_title_case_is_idempotent(s: Seq<char>)
    requires
        is_ascii_chars(s),
    ensures
        title_cased(title_cased(s)) == title_cased(s),
{
    let t = title_cased(s);
    lemma_ascii_title(s);
    assert(is_ascii_chars(t)) by {
        assert forall|i: int| 0 <= i < t.len() implies (#[trigger] t[i]) as nat <= 127 by {
            assert(s[i] as nat <= 127);
        }
    }
    lemma_ascii_title(t);
    assert forall|i: int| 0 <= i < t.len() implies begins_word(t, i) == begins_word(s, i) by {
        assert(t[i] == if begins_word(s, i) {
            ascii_up(s[i])
        } else {
            s[i]
        });
        if i > 0 {
            assert(t[i - 1] == if begins_word(s, i - 1) {
                ascii_up(s[i - 1])
            } else {
                s[i - 1]
            });
        }
    }
    assert(title_cased(t) =~= t);
}

/// A draft that asks for nothing starts the agent in its workspace and no more: each
/// agent is told the workspace by its own option.
pub proof fn law_plain_draft_names_workspace_only(d: DraftView, workspace: Seq<char>)
    requires
        !d.trust,
        !d.force,
        trimmed(d.model).len() == 0,
        trimmed(d.prompt).len() == 0,
    ensures
        args_of(AgentCli::Prime, d, workspace, None) == seq!["--cwd"@, workspace],
        args_of(AgentCli::Cursor, d, workspace, None) == seq!["--workspace"@, workspace],
{
    assert(args_of(AgentCli::Prime, d, workspace, None) =~= seq!["--cwd"@, workspace]);
    assert(args_of(AgentCli::Cursor, d, workspace, None) =~= seq!["--workspace"@, workspace]);
}

/// What a draft asks for comes on top, each thing as an option of its own behind the
/// workspace: trust, force, the model, and the session to go on with.
pub proof fn law_each_wish_adds_its_option(
    cli: AgentCli,
    d: DraftView,
    workspace: Seq<char>,
    chat_id: Option<Seq<char>>,
)
    ensures
        ({
            let with = |t: bool, f: bool, m: Seq<char>, c: Option<Seq<char>>|
                args_of(cli, DraftView { trust: t, force: f, model: m, ..d }, workspace, c);
            let none = Seq::<char>::empty();
            &&& with(true, d.force, d.model, chat_id) == with(
                false,
                d.force,
                d.model,
                chat_id,
            ).insert(2, "--trust"@)
            &&& with(false, true, d.model, chat_id) == with(false, false, d.model, chat_id).insert(
                2,
                "--force"@,
            )
            &&& trimmed(d.model).len() > 0 ==> with(false, false, d.model, chat_id) == with(
                false,
                false,
                none,
                chat_id,
            ).insert(2, trimmed(d.model)).insert(2, "--model"@)
            &&& chat_id is Some && trimmed(chat_id->0).len() > 0 ==> with(
                false,
                false,
                none,
                chat_id,
            ) == with(false, false, none, None).insert(2, trimmed(chat_id->0)).insert(
                2,
                "--resume"@,
            )
        }),
{
    let none = Seq::<char>::empty();
    assert(trimmed(none).len() == 0);
    let a = seq![cli.workspace_flag_of(), workspace];
    let p = match start_prompt(d) {
        Some(p) => seq![p],
        None => Seq::empty(),
    };
    let f = listed_if(d.force, "--force"@);
    let m = option_if("--model"@, nonblank(Some(d.model)));
    let r = option_if("--resume"@, nonblank(chat_id));
    let t = seq!["--trust"@];
    let g = seq!["--force"@];
    let e = Seq::<Seq<char>>::empty();
    lemma_args_apart(a, t, f, m, r, p);
    lemma_args_apart(a, e, f, m, r, p);
    lemma_args_apart(a, e, g, m, r, p);
    lemma_args_apart(a, e, e, m, r, p);
    lemma_args_apart(a, e, e, e, r, p);
    lemma_args_apart(a, e, e, e, e, p);
    lemma_one_between(a, "--trust"@, f + (m + (r + p)));
    lemma_one_between(a, "--force"@, m + (r + p));
    assert(e + (f + (m + (r + p))) =~= f + (m + (r + p)));
    assert(e + (e + (m + (r + p))) =~= m + (r + p));
    assert(e + (g + (m + (r + p))) =~= g + (m + (r + p)));
    assert(e + (e + (e + (r + p))) =~= r + p);
    assert(e + (e + (e + (e + p))) =~= p);
    if trimmed(d.model).len() > 0 {
        assert(m =~= seq!["--model"@, trimmed(d.model)]);
        lemma_two_between(a, "--model"@, trimmed(d.model), r + p);
    }
    if chat_id is Some && trimmed(chat_id->0).len() > 0 {
        assert(r =~= seq!["--resume"@, trimmed(chat_id->0)]);
        lemma_two_between(a, "--resume"@, trimmed(chat_id->0), p);
    }
}

/// Parts of a list, one after the other.
proof fn lemma_args_apart(
    a: Seq<Seq<char>>,
    t: Seq<Seq<char>>,
    f: Seq<Seq<char>>,
    m: Seq<Seq<char>>,
    r: Seq<Seq<char>>,
    p: Seq<Seq<char>>,
)
    ensures
        a + t + f + m + r + p == a + (t + (f + (m + (r + p)))),
{
    assert(a + t + f + m + r + p =~= a + (t + (f + (m + (r + p)))));
}

/// One item between two parts of a list.
proof fn lemma_one_between(a: Seq<Seq<char>>, x: Seq<char>, rest: Seq<Seq<char>>)
    requires
        a.len() == 2,
    ensures
        a + (seq![x] + rest) == (a + rest).insert(2, x),
{
    assert(a + (seq![x] + rest) =~= (a + rest).insert(2, x));
}

/// Two items between two parts of a list.
proof fn lemma_two_between(a: Seq<Seq<char>>, x: Seq<char>, y: Seq<char>, rest: Seq<Seq<char>>)
    requires
        a.len() == 2,
    ensures
        a + (seq![x, y] + rest) == (a + rest).insert(2, y).insert(2, x),
{
    assert(a + (seq![x, y] + rest) =~= (a + rest).insert(2, y).insert(2, x));
}

/// A draft is started in its workspace, without the white space around it, with the
/// program that was found. It goes on with the session that the user resumes, else with
/// the one that was made for it. Without a directory or a program it is not started, and
/// the error says why.
pub proof fn law_draft_is_started_in_its_workspace(
    cli: AgentCli,
    d: DraftView,
    is_dir: bool,
    program: Result<Seq<char>, Seq<char>>,
    made: Option<Seq<char>>,
)
    ensures
        ({
            let w = trimmed(d.workspace);
            match spawn_of(cli, d, is_dir, program, made) {
                Ok(p) => {
                    &&& w.len() > 0 && is_dir && program is Ok
                    &&& p.program == program->Ok_0
                    &&& p.workspace == w
                    &&& d.resume_chat_id is Some && trimmed(d.resume_chat_id->0).len() > 0
                        ==> p.chat_id == trimmed(d.resume_chat_id->0) && p.args == args_of(
                        cli,
                        d,
                        w,
                        Some(trimmed(d.resume_chat_id->0)),
                    )
                    &&& d.resume_chat_id is None && made is Some ==> p.chat_id == made->0
                        && p.args == args_of(cli, d, w, made)
                    &&& d.resume_chat_id is None && made is None ==> p.chat_id.len() == 0
                        && p.args == args_of(cli, d, w, None)
                },
                Err(e) => {
                    &&& w.len() == 0 ==> e == "workspace path is required"@
                    &&& w.len() > 0 && !is_dir ==> e == "workspace is not a directory: "@ + w
                    &&& w.len() > 0 && is_dir ==> program is Err && e == program->Err_0
                },
            }
        }),
{
    reveal_strlit("");
}

/// A tab is first titled as the user asked, else like the last part of its workspace.
pub proof fn law_first_title_is_asked_for_or_workspace(
    cli: AgentCli,
    d: DraftView,
    is_dir: bool,
    program: Result<Seq<char>, Seq<char>>,
    made: Option<Seq<char>>,
)
    ensures
        spawn_of(cli, d, is_dir, program, made) matches Ok(p) ==> {
            &&& d.tab_title is Some && trimmed(d.tab_title->0).len() > 0 ==> p.title == trimmed(
                d.tab_title->0,
            )
            &&& (d.tab_title is None || trimmed(d.tab_title->0).len() == 0) && name_of(
                trimmed(d.workspace),
            ) is Some ==> p.title == name_of(trimmed(d.workspace))->0
            &&& (d.tab_title is None || trimmed(d.tab_title->0).len() == 0) && name_of(
                trimmed(d.workspace),
            ) is None ==> p.title == "agent"@
        },
{
}

/// The program is the one that the environment names, else the agent's own where it is on
/// the path; it is found in no other way.
pub proof fn law_program_is_named_or_on_path(cli: AgentCli, named: Option<Seq<char>>, on_path: bool)
    ensures
        named is Some && trimmed(named->0).len() > 0 ==> binary_of(cli, named, on_path) == Ok::<
            Seq<char>,
            Seq<char>,
        >(trimmed(named->0)),
        (named is None || trimmed(named->0).len() == 0) && on_path ==> binary_of(
            AgentCli::Prime,
            named,
            on_path,
        ) == Ok::<Seq<char>, Seq<char>>("prime-agent"@) && binary_of(
            AgentCli::Cursor,
            named,
            on_path,
        ) == Ok::<Seq<char>, Seq<char>>("cursor-agent"@),
        (named is None || trimmed(named->0).len() == 0) && !on_path ==> binary_of(
            cli,
            named,
            on_path,
        ) is Err,
        AgentCli::Prime.variable_of() == "PRIME_AGENT"@,
        AgentCli::Cursor.variable_of() == "CURSOR_AGENT"@,
{
}

/// A new draft trusts its workspace, forces nothing, and asks for nothing else.
pub proof fn law_new_draft_trusts_its_workspace(workspace: Seq<char>)
    ensures
        ({
            let d = blank_draft(workspace);
            &&& d.workspace == workspace && d.trust && !d.force
            &&& d.model.len() == 0 && d.prompt.len() == 0 && d.images.len() == 0
            &&& d.resume_chat_id is None && d.tab_title is None
        }),
{
    reveal_strlit("");
}

/// An age is told in the largest unit of which it has one: seconds, minutes, hours or days,
/// rounded down. A time that lies ahead is no age.
pub proof fn law_age_is_in_largest_unit(updated_at_ms: u64, now_ms: u64)
    ensures
        ({
            let ms = now_ms - updated_at_ms;
            let age = age_of(updated_at_ms, now_ms);
            &&& ms < 1_000 ==> age == decimal(0) + "s ago"@
            &&& 0 <= ms < 60_000 ==> age == decimal((ms / 1_000) as nat) + "s ago"@
            &&& 60_000 <= ms < 3_600_000 ==> age == decimal((ms / 60_000) as nat) + "m ago"@
            &&& 3_600_000 <= ms < 86_400_000 ==> age == decimal((ms / 3_600_000) as nat)
                + "h ago"@
            &&& 86_400_000 <= ms ==> age == decimal((ms / 86_400_000) as nat) + "d ago"@
        }),
{
    let ms = now_ms - updated_at_ms;
    if ms > 0 {
        assert(ms / 1_000 / 60 == ms / 60_000) by (nonlinear_arith);
        assert(ms / 1_000 / 3_600 == ms / 3_600_000) by (nonlinear_arith);
        assert(ms / 1_000 / 86_400 == ms / 86_400_000) by (nonlinear_arith);
        assert(ms < 60_000 <==> ms / 1_000 < 60) by (nonlinear_arith);
        assert(ms < 3_600_000 <==> ms / 1_000 < 3_600) by (nonlinear_arith);
        assert(ms < 86_400_000 <==> ms / 1_000 < 86_400) by (nonlinear_arith);
    }
}

/// A past session is listed where something was said in it, under the last part of its
/// directory, with the title, the workspace and the time of its record.
pub proof fn law_record_tells_past_session(path: Seq<char>, v: JsonView)
    ensures
        chat_of(path, v) is Some <==> member_bool(v, "hasConversation"@) == Some(true) && name_of(
            path,
        ) is Some,
        chat_of(path, v) matches Some(c) ==> {
            &&& Some(c.id) == name_of(path)
            &&& c.cwd == nonblank(member_str(v, "cwd"@))
            &&& nonblank(member_str(v, "title"@)) is Some ==> c.title == trimmed(
                member_str(v, "title"@)->0,
            )
            &&& nonblank(member_str(v, "title"@)) is None ==> c.title == "Untitled"@
            &&& member_u64(v, "updatedAtMs"@) is Some ==> c.updated_at_ms == member_u64(
                v,
                "updatedAtMs"@,
            )->0
            &&& member_u64(v, "updatedAtMs"@) is None && member_u64(v, "createdAtMs"@) is Some
                ==> c.updated_at_ms == member_u64(v, "createdAtMs"@)->0
            &&& member_u64(v, "updatedAtMs"@) is None && member_u64(v, "createdAtMs"@) is None
                ==> c.updated_at_ms == 0
        },
{
}

/// A session file is listed where it has a header and the user asked for something in it:
/// under the header's id or else the file's stem, by its name or else by what was asked
/// first, with the header's workspace and the time of the last entry.
pub proof fn law_file_tells_past_session(f: FileView)
    ensures
        ({
            let p = session_of(f.lines, f.mtime_ms);
            let v = crate::subagents::first_entry(f.header_line);
            let id = if v is Some && member_str(v->0, "id"@) is Some {
                member_str(v->0, "id"@)
            } else {
                crate::path::stem_of(f.path)
            };
            &&& chat_of_file(f) is Some <==> v is Some && p.first_user_goal is Some && id is Some
            &&& chat_of_file(f) matches Some(c) ==> {
                &&& c.id == id->0
                &&& c.cwd == nonblank(member_str(v->0, "cwd"@))
                &&& p.name is Some ==> c.title == p.name->0
                &&& p.name is None ==> c.title == p.first_user_goal->0
                &&& p.updated_at_ms is Some ==> c.updated_at_ms == p.updated_at_ms->0
                &&& p.updated_at_ms is None ==> c.updated_at_ms == 0
            }
        }),
{
}

/// The sessions of a list stay the same where it is put in order.
proof fn lemma_newest_has(s: Seq<ChatView>)
    ensures
        forall|k: int| 0 <= k < s.len() ==> newest_first(s).contains(#[trigger] s[k]),
        forall|k: int| 0 <= k < newest_first(s).len() ==> s.contains(#[trigger] newest_first(s)[k]),
{
    broadcast use vstd::seq_lib::group_to_multiset_ensures;

    law_newest_first_sorts(s);
    let b = newest_first(s);
    assert forall|k: int| 0 <= k < s.len() implies b.contains(#[trigger] s[k]) by {
        assert(s.contains(s[k]));
        assert(s.to_multiset().count(s[k]) > 0);
        assert(b.to_multiset().count(s[k]) > 0);
    }
    assert forall|k: int| 0 <= k < b.len() implies s.contains(#[trigger] b[k]) by {
        assert(b.contains(b[k]));
        assert(b.to_multiset().count(b[k]) > 0);
        assert(s.to_multiset().count(b[k]) > 0);
    }
}

/// Every file that tells of a past session is in the list of those that can be resumed,
/// which holds nothing else, newest first.
pub proof fn law_every_past_session_is_listed(files: Seq<FileView>)
    ensures
        ({
            let listed = newest_first(chats_in_files(files));
            &&& ages_ordered(listed)
            &&& listed.len() == files.filter(|f: FileView| chat_of_file(f) is Some).len()
            &&& forall|i: int|
                0 <= i < files.len() && chat_of_file(#[trigger] files[i]) is Some
                    ==> listed.contains(chat_of_file(files[i])->0)
            &&& forall|k: int|
                0 <= k < listed.len() ==> recorded_in(#[trigger] listed[k], files)
        }),
{
    let found = chats_in_files(files);
    lemma_chats_in_files(files);
    lemma_newest_has(found);
    law_newest_first_sorts(found);
    let listed = newest_first(found);
    assert forall|i: int|
        0 <= i < files.len() && chat_of_file(#[trigger] files[i]) is Some implies listed.contains(
        chat_of_file(files[i])->0,
    ) by {
        let j = found.index_of(chat_of_file(files[i])->0);
        assert(listed.contains(found[j]));
    }
    assert forall|k: int| 0 <= k < listed.len() implies recorded_in(#[trigger] listed[k], files) by {
        let j = found.index_of(listed[k]);
        assert(recorded_in(found[j], files));
    }
}

/// Does one of the files tell of the past session?
pub open spec fn recorded_in(c: ChatView, files: Seq<FileView>) -> bool {
    exists|i: int| 0 <= i < files.len() && chat_of_file(#[trigger] files[i]) == Some(c)
}

/// The past sessions of the files, one by one.
proof fn lemma_chats_in_files(files: Seq<FileView>)
    ensures
        chats_in_files(files).len() == files.filter(
            |f: FileView| chat_of_file(f) is Some,
        ).len(),
        forall|i: int|
            0 <= i < files.len() && chat_of_file(#[trigger] files[i]) is Some ==> chats_in_files(
                files,
            ).contains(chat_of_file(files[i])->0),
        forall|k: int|
            0 <= k < chats_in_files(files).len() ==> recorded_in(
                #[trigger] chats_in_files(files)[k],
                files,
            ),
    decreases files.len(),
{
    reveal(Seq::filter);
    if files.len() > 0 {
        let t = files.drop_last();
        let before = chats_in_files(t);
        let all = chats_in_files(files);
        lemma_chats_in_files(t);
        assert forall|i: int|
            0 <= i < files.len() && chat_of_file(#[trigger] files[i]) is Some implies all.contains(
            chat_of_file(files[i])->0,
        ) by {
            if i < t.len() {
                assert(chat_of_file(t[i]) is Some);
                let j = before.index_of(chat_of_file(t[i])->0);
                assert(all[j] == before[j]);
            } else {
                assert(all[all.len() - 1] == chat_of_file(files[i])->0);
            }
        }
        assert forall|k: int| 0 <= k < all.len() implies recorded_in(#[trigger] all[k], files) by {
            if k < before.len() {
                assert(recorded_in(before[k], t));
                let i = choose|i: int|
                    0 <= i < t.len() && chat_of_file(#[trigger] t[i]) == Some(before[k]);
                assert(files[i] == t[i]);
            } else {
                assert(chat_of_file(files[files.len() - 1]) == Some(all[k]));
            }
        }
    }
}

/// The past sessions of metadata records are listed in the same way.
pub proof fn law_every_record_is_listed(records: Seq<(Seq<char>, Seq<char>)>)
    ensures
        ({
            let listed = newest_first(chats_in(records));
            &&& ages_ordered(listed)
            &&& listed.len() == records.filter(
                |r: (Seq<char>, Seq<char>)| chat_of_text(r.0, r.1) is Some,
            ).len()
            &&& forall|i: int|
                0 <= i < records.len() && chat_of_text(
                    (#[trigger] records[i]).0,
                    records[i].1,
                ) is Some ==> listed.contains(chat_of_text(records[i].0, records[i].1)->0)
        }),
{
    let found = chats_in(records);
    lemma_chats_in(records);
    lemma_newest_has(found);
    law_newest_first_sorts(found);
    let listed = newest_first(found);
    assert forall|i: int|
        0 <= i < records.len() && chat_of_text((#[trigger] records[i]).0, records[i].1)
            is Some implies listed.contains(chat_of_text(records[i].0, records[i].1)->0) by {
        let j = found.index_of(chat_of_text(records[i].0, records[i].1)->0);
        assert(listed.contains(found[j]));
    }
}

/// The past sessions of the records, one by one.
proof fn lemma_chats_in(records: Seq<(Seq<char>, Seq<char>)>)
    ensures
        chats_in(records).len() == records.filter(
            |r: (Seq<char>, Seq<char>)| chat_of_text(r.0, r.1) is Some,
        ).len(),
        forall|i: int|
            0 <= i < records.len() && chat_of_text((#[trigger] records[i]).0, records[i].1)
                is Some ==> chats_in(records).contains(
                chat_of_text(records[i].0, records[i].1)->0,
            ),
    decreases records.len(),
{
    reveal(Seq::filter);
    if records.len() > 0 {
        let t = records.drop_last();
        let before = chats_in(t);
        let all = chats_in(records);
        lemma_chats_in(t);
        assert forall|i: int|
            0 <= i < records.len() && chat_of_text((#[trigger] records[i]).0, records[i].1)
                is Some implies all.contains(chat_of_text(records[i].0, records[i].1)->0) by {
            if i < t.len() {
                assert(t[i] == records[i]);
                let j = before.index_of(chat_of_text(t[i].0, t[i].1)->0);
                assert(all[j] == before[j]);
            } else {
                assert(all[all.len() - 1] == chat_of_text(records[i].0, records[i].1)->0);
            }
        }
    }
}

/// A record is read as JSON; a text that is none tells of no session.
pub proof fn law_record_is_json(path: Seq<char>, text: Seq<char>)
    ensures
        json_parsed(text) is Err ==> chat_of_text(path, text) is None,
        json_parsed(text) is Ok ==> chat_of_text(path, text) == chat_of(
            path,
            json_parsed(text)->Ok_0,
        ),
{
}

/// An ASCII title with its capitals has the same length, and differs only where a word
/// begins: there it has the capital of the letter.
pub proof fn law_title_case_raises_first_letters(s: Seq<char>, i: int)
    requires
        is_ascii_chars(s),
        0 <= i < s.len(),
    ensures
        title_cased(s).len() == s.len(),
        !is_ws(s[i]) && (i == 0 || is_ws(s[i - 1])) && 'a' <= s[i] <= 'z' ==> title_cased(s)[i]
            as int == s[i] as int - 32,
        is_ws(s[i]) || (i > 0 && !is_ws(s[i - 1])) || !('a' <= s[i] <= 'z') ==> title_cased(s)[i]
            == s[i],
{
    lemma_ascii_title(s);
    let t = title_cased(s)[i];
    assert(t == if begins_word(s, i) {
        ascii_up(s[i])
    } else {
        s[i]
    });
}

/// The metadata records lie below the home directory; without one they cannot be found. A
/// program is on the path where `which` succeeded and printed something.
pub proof fn law_where_things_are_found(
    home: Option<&str>,
    root: Result<String, String>,
    succeeded: bool,
    stdout: Vec<u8>,
    found: Option<String>,
)
    requires
        call_ensures(chats_root, (home,), root),
        call_ensures(which, (succeeded, &stdout), found),
    ensures
        home is Some ==> root is Ok && root->Ok_0@ == below(below(home->0@, ".cursor"@), "chats"@),
        home is None ==> root is Err,
        !succeeded ==> found is None,
        succeeded ==> opt_text(found) == nonblank(Some(lossy_text(stdout@))),
{
}

} // verus!
