use agent_manager::screen::ScreenCell;
use agent_manager::session::{
    build_args, chat_from_file, chats_root, composer_seed, format_age, list_saved_chats,
    list_saved_sessions, parse_saved_chat, prepare, resolve_agent_binary, title_case_words,
    which, AgentCli, NewSessionDraft, SavedChat, SeedInput,
};
use agent_manager::subagents::{ChatSnapshot, SessionFile, Subagent, SubagentStatus};
use agent_manager::tab::{lookup_chat_title, same_subagents, AgentSession, KnownChat};

fn draft() -> NewSessionDraft {
    NewSessionDraft {
        workspace: " /home/u/proj ".to_string(),
        ..NewSessionDraft::in_directory(None)
    }
}

fn tab() -> AgentSession {
    let plan = prepare(AgentCli::Prime, &draft(), true, &Ok("agent".to_string()), None)
        .ok()
        .unwrap();
    AgentSession::spawn(3, &plan)
}

fn chat(id: &str, title: &str, cwd: Option<&str>, at: u64) -> SavedChat {
    SavedChat {
        id: id.to_string(),
        title: title.to_string(),
        cwd: cwd.map(|s| s.to_string()),
        updated_at_ms: at,
    }
}

#[test]
fn the_program_is_found() {
    assert_eq!(
        resolve_agent_binary(AgentCli::Prime, Some(" /opt/a "), false),
        Ok("/opt/a".to_string())
    );
    assert_eq!(
        resolve_agent_binary(AgentCli::Prime, None, true),
        Ok("prime-agent".to_string())
    );
    assert_eq!(
        resolve_agent_binary(AgentCli::Cursor, Some(""), false),
        Err(
            "cursor-agent not found (set CURSOR_AGENT or install cursor-agent on PATH)".to_string()
        )
    );
    assert_eq!(
        which(true, &b"/usr/bin/agent\n".to_vec()).as_deref(),
        Some("/usr/bin/agent")
    );
    assert_eq!(which(false, &b"/usr/bin/agent\n".to_vec()), None);
}

#[test]
fn a_new_session_is_prepared() {
    let mut d = draft();
    d.model = "m1".to_string();
    d.prompt = " hello ".to_string();
    d.force = true;
    let plan = prepare(AgentCli::Prime, &d, true, &Ok("agent".to_string()), None)
        .ok()
        .unwrap();
    assert_eq!(plan.program, "agent");
    assert_eq!(plan.workspace, "/home/u/proj");
    assert_eq!(plan.title, "proj");
    assert_eq!(
        plan.args,
        vec![
            "--cwd",
            "/home/u/proj",
            "--trust",
            "--force",
            "--model",
            "m1",
            "hello"
        ]
    );
    assert_eq!(plan.chat_id, "");
}

#[test]
fn a_session_without_workspace_is_refused() {
    let mut d = draft();
    d.workspace = "  ".to_string();
    let program = Ok("agent".to_string());
    assert_eq!(
        prepare(AgentCli::Prime, &d, true, &program, None).err(),
        Some("workspace path is required".to_string())
    );
    assert_eq!(
        prepare(AgentCli::Prime, &draft(), false, &program, None).err(),
        Some("workspace is not a directory: /home/u/proj".to_string())
    );
    let missing = Err("no agent".to_string());
    assert_eq!(
        prepare(AgentCli::Prime, &draft(), true, &missing, None).err(),
        Some("no agent".to_string())
    );
}

#[test]
fn a_resumed_session_gets_no_prompt() {
    let mut d = draft();
    d.prompt = "ignored".to_string();
    d.resume_chat_id = Some("abc".to_string());
    d.trust = false;
    assert_eq!(
        build_args(AgentCli::Cursor, &d, "/w", Some("abc")),
        vec!["--workspace", "/w", "--resume", "abc"]
    );
}

#[test]
fn images_are_typed_in_before_the_prompt() {
    let mut d = draft();
    d.prompt = "look".to_string();
    assert!(composer_seed(&d).is_empty());
    d.images = vec!["/tmp/a.png".to_string()];
    let seed = composer_seed(&d);
    assert_eq!(seed.len(), 3);
    assert!(matches!(&seed[0], SeedInput::Image(p) if p == "/tmp/a.png"));
    assert!(matches!(&seed[1], SeedInput::Text(t) if t == "look"));
    assert!(matches!(&seed[2], SeedInput::Submit));
    assert!(!build_args(AgentCli::Prime, &d, "/w", None).contains(&"look".to_string()));
}

#[test]
fn a_resumed_session_gets_its_images_alone() {
    let mut d = draft();
    d.prompt = "ignored".to_string();
    d.resume_chat_id = Some("abc".to_string());
    d.images = vec!["/tmp/a.png".to_string(), "/tmp/b.png".to_string()];
    let seed = composer_seed(&d);
    assert_eq!(seed.len(), 2);
    assert!(matches!(&seed[0], SeedInput::Image(p) if p == "/tmp/a.png"));
    assert!(matches!(&seed[1], SeedInput::Image(p) if p == "/tmp/b.png"));
    d.resume_chat_id = Some("  ".to_string());
    assert_eq!(composer_seed(&d).len(), 4);
}

#[test]
fn ages_use_the_largest_unit() {
    assert_eq!(format_age(0, 59_999), "59s ago");
    assert_eq!(format_age(0, 60_000), "1m ago");
    assert_eq!(format_age(0, 7_200_000), "2h ago");
    assert_eq!(format_age(0, 259_200_000), "3d ago");
    assert_eq!(format_age(10, 5), "0s ago");
    let c = chat("a", "t", None, 0);
    assert_eq!(c.age_label(1000), "1s ago");
    assert_eq!(c.workspace_label(), "(no workspace)");
    assert_eq!(chat("a", "t", Some("/w"), 0).workspace_label(), "/w");
}

#[test]
fn records_of_past_sessions() {
    let text = r#"{"hasConversation":true,"title":" T ","cwd":"/w","updatedAtMs":5}"#;
    let c = parse_saved_chat("/c/h/abc", text).unwrap();
    assert_eq!((c.id.as_str(), c.title.as_str()), ("abc", "T"));
    assert_eq!(c.updated_at_ms, 5);
    assert!(parse_saved_chat("/c/h/abc", r#"{"title":"T"}"#).is_none());
    assert!(parse_saved_chat("/c/h/abc", "nonsense").is_none());
    let records = vec![
        ("/c/a".to_string(), r#"{"hasConversation":true,"createdAtMs":1}"#.to_string()),
        ("/c/b".to_string(), r#"{"hasConversation":true,"updatedAtMs":9}"#.to_string()),
        ("/c/d".to_string(), "{}".to_string()),
    ];
    let chats = list_saved_chats(&records);
    let ids: Vec<&str> = chats.iter().map(|c| c.id.as_str()).collect();
    assert_eq!(ids, vec!["b", "a"]);
    assert_eq!(chats[0].title, "Untitled");
    assert!(chats_root(None).is_err());
    assert!(chats_root(Some("/home/u")).unwrap().starts_with("/home/u/"));
}

#[test]
fn past_sessions_from_their_files() {
    let f = SessionFile {
        path: "/s/abc.jsonl".to_string(),
        header_line: Some(r#"{"type":"session","id":"abc","cwd":"/w"}"#.to_string()),
        lines: Some(vec![
            r#"{"type":"session","id":"abc","cwd":"/w"}"#.to_string(),
            r#"{"type":"message","timestamp":"1970-01-01T00:00:07Z","message":{"role":"user","content":"fix it"}}"#.to_string(),
        ]),
        mtime_ms: Some(1),
    };
    let c = chat_from_file(&f).unwrap();
    assert_eq!((c.id.as_str(), c.title.as_str()), ("abc", "fix it"));
    assert_eq!(c.cwd.as_deref(), Some("/w"));
    let empty = SessionFile {
        path: "/s/x.jsonl".to_string(),
        header_line: None,
        lines: None,
        mtime_ms: None,
    };
    assert_eq!(list_saved_sessions(&vec![empty, f]).len(), 1);
}

#[test]
fn a_tab_says_that_its_agent_exited() {
    let mut t = tab();
    assert_eq!((t.id, t.title.as_str()), (3, "proj"));
    t.set_terminal_title("busy".to_string());
    assert_eq!(t.title, "busy");
    t.mark_exited();
    assert_eq!(t.title, "busy (exited)");
    t.mark_exited();
    assert_eq!(t.title, "busy (exited)");
    t.set_terminal_title("late".to_string());
    assert_eq!(t.title, "busy (exited)");
    t.set_user_title("mine");
    assert_eq!(t.title, "mine (exited)");
}

#[test]
fn the_users_title_stays() {
    let mut t = tab();
    let snap = ChatSnapshot {
        title: Some("Refactor auth".to_string()),
        updated_at_ms: None,
        subagents: Vec::new(),
        activity: Some("Running ls".to_string()),
        summary: None,
    };
    assert!(t.poll_chat_state(snap.clone()));
    assert_eq!(t.title, "Refactor auth");
    assert!(!t.poll_chat_state(snap.clone()));
    assert!(t.has_activity());
    t.set_user_title("  ");
    assert_eq!(t.title, "Refactor auth");
    t.set_user_title(" mine ");
    t.poll_chat_state(snap);
    t.set_terminal_title("term".to_string());
    assert_eq!(t.title, "mine");
    assert!(!t.needs_input());
}

#[test]
fn a_tab_is_named_after_what_it_shows() {
    let known = vec![KnownChat {
        chat: chat("abc", "Known title", Some("/w"), 1),
        cwd: Some("/w".to_string()),
    }];
    assert_eq!(
        lookup_chat_title(Some(&known), "abc", "/elsewhere").as_deref(),
        Some("Known title")
    );
    let mut t = tab();
    t.bind_chat("abc".to_string());
    t.auto_rename_from_content(Some(&known), "/w", &Vec::new());
    assert_eq!(t.title, "Known title");

    let mut u = tab();
    let cells: Vec<ScreenCell> = "Fix the login page"
        .chars()
        .map(|c| ScreenCell { line: 0, c })
        .collect();
    u.auto_rename_from_content(None, "/w", &cells);
    assert_eq!(u.title, "Fix the login page");
}

#[test]
fn titles_get_capitals() {
    assert_eq!(title_case_words("fix the login  page"), "Fix The Login  Page");
    assert_eq!(title_case_words("PTY \tio-loop (x)"), "PTY \tIo-loop (x)");
    assert_eq!(title_case_words("élan ßa"), "Élan SSa");
    assert_eq!(title_case_words(""), "");
    let once = title_case_words("a b");
    assert_eq!(title_case_words(&once), once);
}

#[test]
fn subagents_are_compared_whole() {
    let sub = |title: &str| Subagent {
        id: "1".to_string(),
        title: title.to_string(),
        kind: None,
        status: SubagentStatus::Running,
        chat_id: None,
    };
    assert!(same_subagents(&vec![sub("a")], &vec![sub("a")]));
    assert!(!same_subagents(&vec![sub("a")], &vec![sub("b")]));
    assert!(!same_subagents(&vec![sub("a")], &Vec::new()));
}
