use agent_manager::iso::parse_iso_ms;
use agent_manager::json::parse_json;
use agent_manager::subagents::{
    child_status, discover_newest_session, find_session_file, is_child_session,
    list_child_sessions, poll_chat, session_path, sessions_root, Candidate, SessionFile,
    SessionSummary, SubagentStatus,
};
use agent_manager::transcript::{
    casual_topic, format_tool_activity, message_text, parse_session_file, read_session_header,
    sanitize_goal, truncate,
};

fn file(path: &str, lines: &[&str], mtime_ms: u64) -> SessionFile {
    SessionFile {
        path: path.to_string(),
        header_line: lines.first().map(|l| l.to_string()),
        lines: Some(lines.iter().map(|l| l.to_string()).collect()),
        mtime_ms: Some(mtime_ms),
    }
}

#[test]
fn parse_header_and_goal() {
    let f = file(
        "/tmp/s/abcd-1234.jsonl",
        &[
            r#"{"type":"session","version":3,"id":"abcd-1234","timestamp":"2024-12-03T14:00:00.000Z","cwd":"/tmp/proj"}"#,
            r#"{"type":"session_info","id":"n1","parentId":null,"timestamp":"2024-12-03T14:00:01.000Z","name":"Refactor auth"}"#,
            r#"{"type":"message","id":"m1","parentId":null,"timestamp":"2024-12-03T14:00:02.000Z","message":{"role":"user","content":"fix the streaming bug","timestamp":1}}"#,
            r#"{"type":"message","id":"m2","parentId":"m1","timestamp":"2024-12-03T14:00:03.000Z","message":{"role":"assistant","content":[{"type":"toolCall","id":"c1","name":"ipython","arguments":{"code":"print(1)"}}],"stopReason":"toolUse","timestamp":2}}"#,
        ],
        1,
    );
    let snap = poll_chat("abcd-1234", Some(&f), &Vec::new());
    assert_eq!(snap.title.as_deref(), Some("Refactor auth"));
    assert!(
        snap.activity.as_deref().is_some_and(|a| a.contains("Running")
            || a.contains("ipython")
            || a.contains("Working")),
        "activity={:?}",
        snap.activity
    );
    let summary = snap.summary.expect("summary");
    assert!(
        summary.prose.to_lowercase().contains("streaming")
            || summary.goal.as_deref() == Some("fix the streaming bug"),
        "{summary:?}"
    );
}

#[test]
fn casual_topic_strips_imperatives() {
    assert_eq!(casual_topic("fix the streaming bug"), "that streaming bug");
    assert_eq!(casual_topic("add a summary bar"), "that summary bar");
}

#[test]
fn child_sessions_link_via_parent() {
    let parent = "/tmp/s/parent-aaaa.jsonl";
    let files = vec![
        file(
            parent,
            &[
                r#"{"type":"session","version":3,"id":"parent-aaaa","timestamp":"2024-12-03T14:00:00.000Z","cwd":"/tmp/proj"}"#,
                r#"{"type":"message","id":"m1","parentId":null,"timestamp":"2024-12-03T14:00:01.000Z","message":{"role":"user","content":"parent work","timestamp":1}}"#,
            ],
            1,
        ),
        file(
            "/tmp/s/child-bbbb.jsonl",
            &[
                r#"{"type":"session","version":3,"id":"child-bbbb","timestamp":"2024-12-03T14:00:02.000Z","cwd":"/tmp/proj","parentSession":"/tmp/s/parent-aaaa.jsonl"}"#,
                r#"{"type":"session_info","id":"n1","parentId":null,"timestamp":"2024-12-03T14:00:03.000Z","name":"auth-inspector"}"#,
                r#"{"type":"message","id":"m1","parentId":null,"timestamp":"2024-12-03T14:00:04.000Z","message":{"role":"user","content":"review auth","timestamp":1}}"#,
                r#"{"type":"message","id":"m2","parentId":"m1","timestamp":"2024-12-03T14:00:05.000Z","message":{"role":"assistant","content":[{"type":"text","text":"done"}],"stopReason":"stop","timestamp":2}}"#,
            ],
            2,
        ),
    ];
    let snap = poll_chat("parent-aaaa", Some(&files[0]), &files);
    assert_eq!(snap.subagents.len(), 1);
    assert_eq!(snap.subagents[0].title, "auth-inspector");
    assert_eq!(snap.subagents[0].chat_id.as_deref(), Some("child-bbbb"));
    assert_eq!(snap.subagents[0].status, SubagentStatus::Done);
}

#[test]
fn children_come_by_title() {
    let child = |id: &str, name: &str| {
        let head = format!(
            r#"{{"type":"session","id":"{id}","cwd":"/p","parentSession":"/s/p.jsonl"}}"#
        );
        let info = format!(r#"{{"type":"session_info","name":"{name}"}}"#);
        file(&format!("/s/{id}.jsonl"), &[&head, &info], 1)
    };
    let files = vec![child("c1", "zeta"), child("c2", "alpha"), child("c3", "mid")];
    let subs = list_child_sessions("/s/p.jsonl", &Some("p".to_string()), &files);
    let titles: Vec<&str> = subs.iter().map(|s| s.title.as_str()).collect();
    assert_eq!(titles, vec!["alpha", "mid", "zeta"]);
    assert!(is_child_session(
        "/s/c1.jsonl",
        &files[0].header_line,
        "/s/p.jsonl",
        &None
    ));
    assert!(!is_child_session(
        "/s/p.jsonl",
        &files[0].header_line,
        "/s/p.jsonl",
        &None
    ));
}

#[test]
fn an_unknown_chat_gives_an_empty_snapshot() {
    let snap = poll_chat("", None, &Vec::new());
    assert_eq!(snap.title, None);
    assert_eq!(snap.activity, None);
    assert!(snap.summary.is_none());
    assert!(snap.subagents.is_empty());
}

#[test]
fn dates_count_milliseconds() {
    assert_eq!(parse_iso_ms("1970-01-01T00:00:00Z"), Some(0));
    assert_eq!(
        parse_iso_ms("2024-12-03T14:00:00.000Z"),
        Some(1_733_234_400_000)
    );
    assert_eq!(parse_iso_ms("1970-01-02T00:00:01Z"), Some(86_401_000));
    assert_eq!(parse_iso_ms("1-1-1-éabT00:00:00"), Some(0));
    assert_eq!(
        parse_iso_ms("2001-1-1-xT00:00:00"),
        Some(978_307_200_000)
    );
    assert_eq!(parse_iso_ms("2024-12-0éT00:00:00"), None);
    assert_eq!(parse_iso_ms("yesterday"), None);
    assert_eq!(parse_iso_ms(""), None);
}

#[test]
fn headers_are_read() {
    let h = read_session_header(r#"{"type":"session","id":"a","cwd":"/p"}"#).unwrap();
    assert_eq!(h.id.as_deref(), Some("a"));
    assert_eq!(h.cwd.as_deref(), Some("/p"));
    assert_eq!(h.parent_session, None);
    assert!(read_session_header(r#"{"type":"message"}"#).is_none());
    assert!(read_session_header("not json").is_none());
}

#[test]
fn tools_are_named() {
    let part = parse_json(r#"{"arguments":{"command":"ls -l"}}"#).unwrap();
    let text = format_tool_activity("bash", &part);
    assert!(text.contains("ls -l"), "{text}");
    let text = format_tool_activity("frobnicate", &part);
    assert!(text.contains("frobnicate"), "{text}");
}

#[test]
fn messages_are_texts_or_parts() {
    let plain = parse_json(r#"{"content":"hello"}"#).unwrap();
    assert_eq!(message_text(&plain).as_deref(), Some("hello"));
    let parts =
        parse_json(r#"{"content":[{"type":"text","text":"a"},{"type":"text","text":"b"}]}"#)
            .unwrap();
    let text = message_text(&parts).unwrap();
    assert!(text.starts_with('a') && text.ends_with('b'), "{text}");
    assert_eq!(message_text(&parse_json("{}").unwrap()), None);
}

#[test]
fn goals_are_short() {
    assert_eq!(
        sanitize_goal(" <user_query> fix   it </user_query> "),
        "fix   it"
    );
    let long = "word ".repeat(200);
    assert!(sanitize_goal(&long).chars().count() <= 80);
    assert_eq!(truncate("abcdef", 4).chars().count(), 4);
    assert_eq!(truncate("abc", 4), "abc");
}

#[test]
fn a_missing_transcript_is_blank() {
    let p = parse_session_file(None, Some(5));
    assert_eq!(p.name, None);
    assert_eq!(p.first_user_goal, None);
    assert_eq!(p.activity, None);
    assert_eq!(p.tool_events, 0);
}

#[test]
fn roots_and_paths() {
    assert_eq!(
        sessions_root(Some("/a"), Some("/b"), Some("/home/u")).as_deref(),
        Some("/a")
    );
    assert_eq!(
        sessions_root(None, None, Some("/home/u")).as_deref(),
        Some("/home/u/.prime/agent/sessions")
    );
    assert_eq!(sessions_root(None, None, None), None);
    assert_eq!(session_path("/r", "abc"), "/r/abc.jsonl");
    assert_eq!(
        find_session_file("abc", false, Some("/r"), true, None).as_deref(),
        Some("/r/abc.jsonl")
    );
    let entries = vec!["/r/x.jsonl".to_string(), "/r/2024_abc.jsonl".to_string()];
    assert_eq!(
        find_session_file("abc", false, Some("/r"), false, Some(&entries)).as_deref(),
        Some("/r/2024_abc.jsonl")
    );
    assert_eq!(find_session_file("", false, Some("/r"), false, None), None);
}

#[test]
fn the_newest_session_of_a_workspace() {
    let candidate = |path: &str, mtime_ms: u64, cwd: &str| Candidate {
        path: format!("/s/{path}.jsonl"),
        header_line: Some(format!(
            r#"{{"type":"session","id":"{path}","cwd":"{cwd}"}}"#
        )),
        mtime_ms,
        cwd: Some(cwd.to_string()),
    };
    let candidates = vec![
        candidate("old", 10_000, "/w"),
        candidate("new", 30_000, "/w"),
        candidate("elsewhere", 40_000, "/x"),
        candidate("mid", 20_000, "/w/"),
    ];
    assert_eq!(
        discover_newest_session(&candidates, "/w", 0).as_deref(),
        Some("new")
    );
    assert_eq!(
        discover_newest_session(&candidates, "/w", 32_000).as_deref(),
        Some("new")
    );
    assert_eq!(discover_newest_session(&candidates, "/w", 32_001), None);
}

#[test]
fn a_child_is_running_done_or_failed() {
    let busy = Some("Running ls".to_string());
    assert_eq!(
        child_status(&busy, "running ls", false),
        SubagentStatus::Running
    );
    assert_eq!(child_status(&None, "", true), SubagentStatus::Done);
    let failed = Some("Error: x".to_string());
    assert_eq!(
        child_status(&failed, "error: x", true),
        SubagentStatus::Failed
    );
    assert!(SubagentStatus::Running.is_live());
    assert!(!SubagentStatus::Done.is_live());
}

#[test]
fn a_summary_without_words_is_empty() {
    let none = SessionSummary {
        goal: None,
        prose: String::new(),
    };
    assert!(none.is_empty());
    assert_eq!(none.title_hint(), None);
    let some = SessionSummary {
        goal: Some("fix it".to_string()),
        prose: String::new(),
    };
    assert!(!some.is_empty());
    assert_eq!(some.title_hint(), Some("fix it"));
}
