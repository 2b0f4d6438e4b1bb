use agent_manager::clipboard::{
    clip_path, clipboard_commands, copy_commands, detect_format, image_name, is_clipboard_image,
    ImageFormat,
};
use agent_manager::markdown::{parse_atx_heading, parse_list_item, summary_markdown};
use agent_manager::rows::{
    count_status, more_completed, row_mark, task_note, task_rows, workspace_header, RowMark,
};
use agent_manager::screen::{
    sanitize_auto_title, screen_rows, term_selection_text, title_from_terminal, trim_trailing_ws,
    ScreenCell,
};
use agent_manager::sidebar::{group_sessions, path_not_after};
use agent_manager::subagents::{SessionSummary, Subagent, SubagentStatus};
use agent_manager::tab::AgentSession;
use agent_manager::tasks::{
    first_line_preview, short_kind, summary_panel, task_header_label, task_hover, task_label,
};
use agent_manager::terminal::{
    agent_paste, hidden_cursor_cell, page_scroll, scrollbar_delta, BarHit, PointerInput,
    SelectAction, TermSelect,
};
use agent_manager::touch::{TextMode, TouchSelect};

fn cells(text: &str) -> Vec<ScreenCell> {
    let mut out = Vec::new();
    for (line, row) in text.split('\n').enumerate() {
        for c in row.chars() {
            out.push(ScreenCell {
                line: line as i32,
                c,
            });
        }
    }
    out
}

fn sub(title: &str, status: SubagentStatus) -> Subagent {
    Subagent {
        id: title.to_string(),
        title: title.to_string(),
        kind: Some("rlm".to_string()),
        status,
        chat_id: Some(format!("chat-{title}")),
    }
}

fn tab(id: u64, workspace: &str) -> AgentSession {
    AgentSession {
        id,
        title: String::new(),
        workspace: workspace.to_string(),
        alive: true,
        chat_id: String::new(),
        subagents: Vec::new(),
        title_locked: false,
        activity: None,
        summary: None,
        tasks_folded: false,
    }
}

fn pointer(pressed: bool, down: bool, released: bool, over: Option<bool>) -> PointerInput {
    PointerInput {
        pressed,
        down,
        released,
        dragging: false,
        over,
    }
}

#[test]
fn selections_lose_trailing_blanks() {
    assert_eq!(screen_rows(&cells("ab\ncd")).len(), 2);
    assert_eq!(trim_trailing_ws(" a  "), " a");
    let text = term_selection_text(&cells("ls  \nout   "));
    assert_eq!(text, "ls\nout");
    assert_eq!(term_selection_text(&cells("   \n  ")), "");
}

#[test]
fn titles_are_taken_from_the_screen() {
    assert_eq!(
        sanitize_auto_title("  > Fix the login page  ").as_deref(),
        Some("Fix the login page")
    );
    assert_eq!(sanitize_auto_title("───"), None);
    let title = title_from_terminal(&cells("────\nFix the login page\n"));
    assert_eq!(title.as_deref(), Some("Fix the login page"));
    let long = "word ".repeat(100);
    if let Some(t) = sanitize_auto_title(&long) {
        assert!(t.chars().count() <= 48);
    }
}

#[test]
fn a_selection_begins_over_the_terminal() {
    let mut s = TermSelect::new();
    let away = s.drive(pointer(true, true, false, Some(false)));
    assert_eq!(away, SelectAction::Nothing);
    assert!(!s.armed);
    let start = s.drive(pointer(true, true, false, Some(true)));
    assert_eq!(start, SelectAction::Start);
    let update = s.drive(pointer(false, true, false, Some(true)));
    assert_eq!(update, SelectAction::Update);
    assert_eq!(
        s.drive(pointer(false, false, false, None)),
        SelectAction::Nothing
    );
    assert_eq!(s, TermSelect::new());
}

#[test]
fn pages_scroll_by_a_screen() {
    assert_eq!(page_scroll(false, false, true, false, 24), Some(24));
    assert_eq!(page_scroll(false, false, false, true, 24), Some(-24));
    assert_eq!(page_scroll(true, false, true, false, 24), None);
    assert_eq!(page_scroll(false, true, true, false, 24), None);
    assert_eq!(page_scroll(false, false, true, false, 0), Some(1));
}

#[test]
fn the_scrollbar_stays_in_the_history() {
    assert_eq!(scrollbar_delta(100, 10, 24, Some(0), None, 0), 90);
    assert_eq!(scrollbar_delta(100, 10, 24, Some(500), None, 0), -10);
    let above = scrollbar_delta(100, 10, 24, None, Some(BarHit::AboveThumb), 0);
    assert_eq!(above, 24);
    assert_eq!(scrollbar_delta(100, 10, 24, None, None, 3), -3);
    assert_eq!(scrollbar_delta(0, 0, 24, Some(5), None, 3), 0);
}

#[test]
fn a_hidden_cursor_is_covered() {
    assert_eq!(hidden_cursor_cell(false, 3, 5, 2), Some((5, 5)));
    assert_eq!(hidden_cursor_cell(true, 3, 5, 2), None);
    assert_eq!(hidden_cursor_cell(false, -3, 5, 2), None);
}

#[test]
fn pastes_go_to_the_agent() {
    let p = agent_paste(false, false, true, false, true, true);
    assert!(p.drop_paste && p.send);
    let p = agent_paste(true, false, true, false, true, true);
    assert!(!p.drop_paste && !p.send);
    let p = agent_paste(false, false, true, false, true, false);
    assert!(p.drop_paste && !p.send);
}

#[test]
fn a_long_touch_copies_all() {
    let mut t = TouchSelect::new();
    assert_eq!(t.mode(1, false), TextMode::Label);
    assert_eq!(t.mode(1, true), TextMode::Touchable);
    assert!(t.drag_scrolls());
    t.long_touched(1);
    assert_eq!(t.mode(1, true), TextMode::Field);
    assert_eq!(t.mode(2, true), TextMode::Touchable);
    assert!(!t.drag_scrolls());
    let a = t.shown_as_field("all of it", None, false);
    assert!(a.select_all);
    assert_eq!(a.copy.as_deref(), Some("all of it"));
    let a = t.shown_as_field("all of it", Some("of"), false);
    assert_eq!(a.copy.as_deref(), Some("of"));
    let a = t.shown_as_field("all of it", None, true);
    assert!(a.leave);
    assert!(t.drag_scrolls());
}

#[test]
fn images_are_told_by_their_first_bytes() {
    let png = vec![0x89, b'P', b'N', b'G', 0x0d, 0x0a, 0x1a, 0x0a, 0];
    assert_eq!(detect_format(&png), Some(ImageFormat::Png));
    assert_eq!(
        detect_format(&vec![0xff, 0xd8, 0xff, 0]),
        Some(ImageFormat::Jpeg)
    );
    assert_eq!(detect_format(&b"GIF89a".to_vec()), Some(ImageFormat::Gif));
    assert_eq!(detect_format(&b"text".to_vec()), None);
    let commands = clipboard_commands(true, true);
    assert_eq!(commands.len(), 8);
    assert_eq!(commands[0].program, "wl-paste");
    assert_eq!(commands[0].args, vec!["--type", "image/png"]);
    assert!(is_clipboard_image(&commands[0], true, &png));
    assert!(!is_clipboard_image(&commands[0], false, &png));
    assert!(!is_clipboard_image(&commands[1], true, &png));
    assert_eq!(
        clip_path("/tmp/clips", 7, 2, ImageFormat::Png),
        "/tmp/clips/clip-7-2.png"
    );
    assert_eq!(image_name("/tmp/clips/clip-7-2.png"), "clip-7-2.png");
    assert_eq!(image_name("/"), "image");
    let copies = copy_commands(&png, true, false);
    assert_eq!(copies.len(), 1);
    assert_eq!(copies[0].program, "wl-copy");
}

#[test]
fn markdown_becomes_spans() {
    assert_eq!(parse_atx_heading("## Title ##").unwrap().0, 2);
    assert_eq!(parse_atx_heading("####### x"), None);
    assert_eq!(parse_list_item("- item").as_deref(), Some("item"));
    assert_eq!(parse_list_item("plain"), None);
    let spans = summary_markdown("just words", false);
    assert_eq!(spans.len(), 1);
    assert_eq!(spans[0].text, "just words");
    let spans = summary_markdown("run `ls` **now**", false);
    assert!(spans.iter().any(|s| s.text == "\u{a0}ls\u{a0}" && s.style.code));
    assert!(spans.iter().any(|s| s.text == "now" && s.style.bold > 0));
}

#[test]
fn tasks_are_labelled() {
    assert_eq!(task_header_label(1, 0, 2, Some("review")), "review");
    assert_eq!(
        task_header_label(2, 1, 3, Some("x")),
        "2 running · 1 failed · 3 done"
    );
    assert_eq!(task_header_label(0, 0, 4, None), "4 done");
    assert_eq!(short_kind("generalPurpose"), "agent");
    let s = sub("review", SubagentStatus::Running);
    assert_eq!(task_label(&s), "review · rlm");
    assert_eq!(task_hover(&s), "running · rlm\nreview\nClick to open");
    assert_eq!(first_line_preview("\n  first \nsecond", 40), "first");
}

#[test]
fn the_summary_panel_is_never_blank() {
    let (text, filler) = summary_panel(&None, true);
    assert!(filler);
    assert_eq!(text, "quiet so far — nothing cooking yet.");
    let some = Some(SessionSummary {
        goal: None,
        prose: "Looking at it.".to_string(),
    });
    assert_eq!(
        summary_panel(&some, true),
        ("Looking at it.".to_string(), false)
    );
}

#[test]
fn only_three_done_tasks_are_shown() {
    let mut subs = vec![sub("r", SubagentStatus::Running)];
    for name in ["a", "b", "c", "d", "e"] {
        subs.push(sub(name, SubagentStatus::Done));
    }
    assert_eq!(count_status(&subs, SubagentStatus::Done), 5);
    let rows = task_rows(&subs);
    assert_eq!(rows.len(), 4);
    assert!(rows[0].live);
    assert_eq!(
        rows[1].opens,
        Some(("chat-a".to_string(), "a".to_string()))
    );
    assert_eq!(
        more_completed(&subs).as_deref(),
        Some("    +2 more completed")
    );
    assert_eq!(task_note(&subs, true).as_deref(), Some("▶ r"));
    assert_eq!(task_note(&Vec::new(), true), None);
}

#[test]
fn rows_are_marked() {
    assert!(matches!(
        row_mark(true, true, true, &None),
        RowMark::Question(t) if t == "Waiting for answer"
    ));
    assert!(matches!(
        row_mark(false, true, true, &None),
        RowMark::Spinner(t) if t == "Working…"
    ));
    assert!(matches!(
        row_mark(false, false, false, &None),
        RowMark::Exited
    ));
    let h = workspace_header("/home/u/proj", false);
    assert_eq!(h.label, "▼ proj");
    assert_eq!(h.hover, "Fold sessions\n/home/u/proj");
}

#[test]
fn sessions_are_grouped_by_workspace() {
    let sessions = vec![tab(1, "/b"), tab(2, "/a"), tab(3, "/b/"), tab(4, "/a/c")];
    let groups = group_sessions(&sessions);
    let shape: Vec<(&str, Vec<u64>)> = groups
        .iter()
        .map(|g| (g.workspace.as_str(), g.ids.clone()))
        .collect();
    assert_eq!(
        shape,
        vec![("/a", vec![2]), ("/a/c", vec![4]), ("/b", vec![1, 3])]
    );
    assert!(path_not_after("/a", "/a/c"));
    assert!(!path_not_after("/b", "/a/c"));
}
