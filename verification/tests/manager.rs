use agent_manager::app::{App, CloseAction};
use agent_manager::dialogs::{chat_meta, low_text_matches, AuthMethod, ResumeDialog};
use agent_manager::oidc::{OidcLoginConfig, OidcLoginEvent};
use agent_manager::screen::ScreenCell;
use agent_manager::session::{NewSessionDraft, SavedChat, SpawnPlan};
use agent_manager::subagents::ChatSnapshot;

fn plan(workspace: &str, chat_id: &str) -> SpawnPlan {
    SpawnPlan {
        program: "agent".to_string(),
        args: Vec::new(),
        workspace: workspace.to_string(),
        title: "tab".to_string(),
        chat_id: chat_id.to_string(),
    }
}

fn draft(workspace: &str) -> NewSessionDraft {
    NewSessionDraft::in_directory(Some(workspace))
}

fn chat(id: &str, title: &str, cwd: Option<&str>) -> SavedChat {
    SavedChat {
        id: id.to_string(),
        title: title.to_string(),
        cwd: cwd.map(|s| s.to_string()),
        updated_at_ms: 1,
    }
}

fn spawn(app: &mut App, workspace: &str, chat_id: &str) -> u64 {
    let gen = app.begin_spawn(draft(workspace), false);
    let start = app
        .drain_pending_spawn(gen, Ok(plan(workspace, chat_id)))
        .unwrap();
    let id = start.id;
    app.spawned(start, None);
    id
}

#[test]
fn sessions_get_growing_ids() {
    let mut app = App::new("label".to_string());
    assert_eq!(app.counts_label(), "0/0 running");
    assert_eq!(app.active_label(), None);
    let a = spawn(&mut app, "/a", "");
    let b = spawn(&mut app, "/b", "");
    assert_eq!((a, b), (1, 2));
    assert_eq!(app.active, Some(2));
    assert_eq!(app.counts_label(), "2/2 running");
    assert_eq!(app.active_label().as_deref(), Some("#2 · /b"));
    app.pty_exit(1);
    assert_eq!(app.counts_label(), "1/2 running");
    assert_eq!(app.sessions[0].title, "tab (exited)");
}

#[test]
fn a_closed_tab_yields_to_its_neighbour() {
    let mut app = App::new(String::new());
    for w in ["/a", "/b", "/c"] {
        spawn(&mut app, w, "");
    }
    app.select(2);
    assert_eq!(app.close_session(2, 1000), CloseAction::Kill);
    assert_eq!(app.active, Some(1));
    assert_eq!(app.draining.len(), 1);
    assert_eq!(app.close_session(1, 1000), CloseAction::Kill);
    assert_eq!(app.active, Some(3));
    app.pty_exit(3);
    assert_eq!(app.close_session(3, 1000), CloseAction::Drop);
    assert_eq!(app.active, None);
    assert_eq!(app.close_session(3, 1000), CloseAction::Nothing);
    app.finish_draining(2);
    assert_eq!(app.poll_draining_timeouts(2999), Vec::<u64>::new());
    assert_eq!(app.poll_draining_timeouts(3000), vec![1]);
    assert!(app.draining.is_empty());
    app.select(9);
    assert_eq!(app.active, None);
}

#[test]
fn a_given_up_preparation_is_dropped() {
    let mut app = App::new(String::new());
    let old = app.begin_spawn(draft("/a"), false);
    let new = app.begin_spawn(draft("/b"), false);
    assert!(app.drain_pending_spawn(old, Ok(plan("/a", ""))).is_none());
    assert!(app.pending_spawn.is_some());
    app.cancel_pending_spawn();
    assert!(app.drain_pending_spawn(new, Ok(plan("/b", ""))).is_none());
    assert!(app.sessions.is_empty());
    assert_eq!(app.next_id, 1);
}

#[test]
fn a_failed_session_opens_its_dialog_again() {
    let mut app = App::new(String::new());
    app.open_new_dialog(Some("/cwd"));
    assert!(app.dialog_open());
    let (gen, d) = app.spawn_new().unwrap();
    assert_eq!(d.workspace, "/cwd");
    app.new_dialog = None;
    assert!(app
        .drain_pending_spawn(gen, Err("no agent".to_string()))
        .is_none());
    assert_eq!(app.spawn_error.as_deref(), Some("no agent"));
    assert_eq!(app.new_dialog.as_ref().unwrap().workspace, "/cwd");

    let (gen, _) = app.spawn_new().unwrap();
    let start = app.drain_pending_spawn(gen, Ok(plan("/cwd", ""))).unwrap();
    app.spawned(start, Some("no terminal".to_string()));
    assert_eq!(app.spawn_error.as_deref(), Some("no terminal"));
    assert!(app.sessions.is_empty());
}

#[test]
fn dialogs_replace_each_other() {
    let mut app = App::new(String::new());
    app.open_new_dialog(None);
    assert_eq!(app.new_dialog.as_ref().unwrap().workspace, ".");
    app.open_convert_dialog();
    assert!(app.new_dialog.is_none());
    let gen = app.open_resume_dialog();
    assert!(app.convert_dialog.is_none());
    app.open_new_dialog(None);
    assert!(app.resume_dialog.is_none());
    app.drain_resume_load(gen, Ok(vec![chat("a", "A", None)]));
    assert!(app.resume_dialog.is_none());
}

#[test]
fn images_are_attached_and_given_back() {
    let mut app = App::new(String::new());
    app.attach_image("/tmp/x.png".to_string());
    app.open_new_dialog(None);
    app.attach_image("/tmp/a.png".to_string());
    app.attach_image("/tmp/b.png".to_string());
    assert_eq!(app.detach_image(0).as_deref(), Some("/tmp/a.png"));
    assert_eq!(app.detach_image(5), None);
    assert_eq!(app.cancel_new(), vec!["/tmp/b.png".to_string()]);
    assert!(!app.dialog_open());
}

#[test]
fn a_past_session_is_resumed() {
    let mut app = App::new(String::new());
    let first = app.open_resume_dialog();
    let second = app.refresh_resume().unwrap();
    app.drain_resume_load(first, Err("stale".to_string()));
    assert!(app.resume_dialog.as_ref().unwrap().loading);
    app.drain_resume_load(second, Ok(vec![chat("a", "A", Some("/w")), chat("b", "B", None)]));
    assert!(!app.resume_dialog.as_ref().unwrap().loading);

    assert!(app.resume_selected().is_none());
    assert_eq!(app.spawn_error.as_deref(), Some("select a chat to resume"));
    app.resume_dialog.as_mut().unwrap().selected = Some("b".to_string());
    assert!(app.resume_selected().is_none());
    assert_eq!(
        app.spawn_error.as_deref(),
        Some("selected chat has no workspace path; cannot resume")
    );
    app.resume_dialog.as_mut().unwrap().selected = Some("a".to_string());
    let (gen, d) = app.resume_selected().unwrap();
    assert_eq!(gen, app.spawn_gen);
    assert_eq!(d.resume_chat_id.as_deref(), Some("a"));
    assert_eq!(d.tab_title.as_deref(), Some("A"));
    assert_eq!(app.spawn_error, None);
    app.cancel_resume();
    assert!(app.resume_dialog.is_none() && app.pending_spawn.is_none());
    assert_eq!(app.refresh_resume(), None);
}

#[test]
fn a_listing_keeps_the_choice_that_is_still_there() {
    let mut d = ResumeDialog::loading();
    d.selected = Some("a".to_string());
    d.reload(Ok(vec![chat("a", "A", None)]));
    assert_eq!(d.selected.as_deref(), Some("a"));
    assert!(d.can_resume(false));
    assert!(!d.can_resume(true));
    d.reload(Err("unreadable".to_string()));
    assert_eq!(d.selected, None);
    assert_eq!(d.load_error.as_deref(), Some("unreadable"));
    d.selected = Some("x".to_string());
    d.apply_load(Ok(Vec::new()));
    assert_eq!(d.selected.as_deref(), Some("x"));
    assert!(d.selected_chat().is_none());
}

#[test]
fn the_filter_ignores_case() {
    let mut d = ResumeDialog::loading();
    d.apply_load(Ok(vec![
        chat("Id-1", "Größe", Some("/Work")),
        chat("id-2", "other", None),
    ]));
    assert_eq!(d.filtered().len(), 2);
    d.filter = " GRÖSSE ".to_string();
    assert_eq!(d.filtered().len(), 0);
    d.filter = "GRÖ".to_string();
    assert_eq!(d.filtered()[0].id, "Id-1");
    d.filter = "/work".to_string();
    assert_eq!(d.filtered().len(), 1);
    d.filter = "(No".to_string();
    assert_eq!(d.filtered()[0].id, "id-2");
    d.filter = "ID-".to_string();
    assert_eq!(d.filtered().len(), 2);
    assert!(low_text_matches("title", "ws", "id", "itl"));
    assert!(!low_text_matches("title", "ws", "id", "x"));
    assert_eq!(
        chat_meta(&chat("a", "A", Some("/w")), 2001),
        "/w · 2s ago"
    );
}

#[test]
fn a_script_is_converted_and_remembered() {
    let mut app = App::new(String::new());
    assert!(app.begin_convert().is_none());
    app.open_convert_dialog();
    app.convert_dialog.as_mut().unwrap().bash = "ls -l".to_string();
    let (gen, bash) = app.begin_convert().unwrap();
    assert_eq!(bash, "ls -l");
    assert!(app.convert_dialog.as_ref().unwrap().converting);
    app.drain_convert(gen.wrapping_add(1), Ok("stale".to_string()));
    assert_eq!(app.convert_dialog.as_ref().unwrap().nushell, "");
    app.drain_convert(gen, Ok("ls".to_string()));
    let d = app.convert_dialog.as_ref().unwrap();
    assert_eq!((d.nushell.as_str(), d.converting), ("ls", false));
    assert_eq!(app.convert_history[0].nushell, "ls");

    let (gen, _) = app.begin_convert().unwrap();
    app.drain_convert(gen, Err("boom".to_string()));
    let d = app.convert_dialog.as_mut().unwrap();
    assert_eq!(d.error.as_deref(), Some("boom"));
    d.bash = "other".to_string();
    app.restore_snippet(0);
    app.restore_snippet(7);
    let d = app.convert_dialog.as_ref().unwrap();
    assert_eq!((d.bash.as_str(), d.error.is_none()), ("ls -l", true));

    let (gen, _) = app.begin_convert().unwrap();
    app.close_convert();
    app.drain_convert(gen, Ok("late".to_string()));
    assert_eq!(app.convert_history.len(), 1);
    app.clear_history();
    assert!(app.convert_history.is_empty());
}

#[test]
fn tabs_are_renamed() {
    let mut app = App::new(String::new());
    let id = spawn(&mut app, "/a", "");
    app.pty_exit(id);
    app.open_rename_dialog(id);
    assert_eq!(app.rename_dialog.as_ref().unwrap().draft, "tab");
    app.rename_dialog.as_mut().unwrap().draft = " mine ".to_string();
    assert!(app.rename_dialog.as_ref().unwrap().can_apply());
    app.apply_rename();
    assert_eq!(app.sessions[0].title, "Mine (exited)");
    assert!(app.rename_dialog.is_none());
    app.open_rename_dialog(id);
    app.close_session(id, 0);
    app.check_rename();
    assert!(app.rename_dialog.is_none());
    app.open_rename_dialog(id);
    assert!(app.rename_dialog.is_none());
    app.cancel_rename();
}

#[test]
fn a_found_transcript_is_bound_once() {
    let mut app = App::new(String::new());
    spawn(&mut app, "/a", "");
    spawn(&mut app, "/b", "chat-b");
    spawn(&mut app, "/c", "");
    app.pty_exit(3);
    assert_eq!(app.unbound_sessions(), vec![1]);
    app.bind_chat(1, "chat-a".to_string());
    app.bind_chat(1, "other".to_string());
    app.bind_chat(2, "other".to_string());
    app.bind_chat(9, "other".to_string());
    assert_eq!(app.sessions[0].chat_id, "chat-a");
    assert_eq!(app.sessions[1].chat_id, "chat-b");
    assert!(app.unbound_sessions().is_empty());
}

#[test]
fn a_tab_is_renamed_from_its_screen() {
    let mut app = App::new(String::new());
    let id = spawn(&mut app, "/a", "");
    let cells: Vec<ScreenCell> = "Fix the login page"
        .chars()
        .map(|c| ScreenCell { line: 0, c })
        .collect();
    app.auto_rename(9, None, "/a", &cells);
    assert_eq!(app.sessions[0].title, "tab");
    app.auto_rename(id, None, "/a", &cells);
    assert_eq!(app.sessions[0].title, "Fix the login page");
}

#[test]
fn the_poller_is_told_only_of_changes() {
    let mut app = App::new(String::new());
    assert!(app.publish_watches().is_none());
    spawn(&mut app, "/a", "chat-a");
    spawn(&mut app, "/b", "");
    let w = app.publish_watches().unwrap();
    assert_eq!(w.len(), 1);
    assert_eq!((w[0].id, w[0].chat_id.as_str()), (1, "chat-a"));
    assert!(app.publish_watches().is_none());
    app.apply_chat_snapshot(
        1,
        ChatSnapshot {
            title: Some("Refactor".to_string()),
            updated_at_ms: None,
            subagents: Vec::new(),
            activity: None,
            summary: None,
        },
    );
    assert_eq!(app.sessions[0].title, "Refactor");
    app.pty_title(2, "term".to_string());
    assert_eq!(app.sessions[1].title, "term");
    app.shutdown_all_sessions();
    assert!(app.sessions.is_empty() && app.active.is_none());
    assert!(app.publish_watches().is_none());
}

#[test]
fn a_task_is_shown_or_resumed() {
    let mut app = App::new(String::new());
    spawn(&mut app, "/a", "chat-a");
    spawn(&mut app, "/b", "");
    assert!(app.open_or_focus_task("/a", "chat-a", "A").is_none());
    assert_eq!(app.active, Some(1));
    let (_, d) = app.open_or_focus_task("/a", "chat-z", "Z").unwrap();
    assert_eq!(d.workspace, "/a");
    assert_eq!(d.resume_chat_id.as_deref(), Some("chat-z"));
    assert!(app.open_or_focus_task("/a", "chat-y", "Y").is_none());
}

#[test]
fn folding_hides_one_workspace() {
    let mut app = App::new(String::new());
    app.toggle_workspace_fold("/a");
    assert!(app.workspace_is_folded("/a/"));
    assert!(!app.workspace_is_folded("/b"));
    app.toggle_workspace_fold("/a/");
    assert!(!app.workspace_is_folded("/a"));
    let id = spawn(&mut app, "/a", "");
    app.toggle_tasks_fold(id);
    assert!(app.sessions[0].tasks_folded);
}

#[test]
fn signing_in_through_the_dialog() {
    let mut app = App::new("Cursor: signed in".to_string());
    assert_eq!(app.auth_button(false), "Cursor: sign in");
    assert_eq!(app.auth_button(true), "Cursor: signed in");
    assert!(app.take_auto_auth());
    assert!(!app.take_auto_auth());
    let config = OidcLoginConfig::default();
    app.open_auth_dialog(&config, "http://h".to_string(), String::new(), true);
    let d = app.auth_dialog.as_mut().unwrap();
    assert!(d.show_token_field);
    assert_eq!(d.status, "CURSOR_API_KEY is already set in the environment.");

    d.oidc_started(Ok(()));
    assert!(d.oidc_busy);
    assert_eq!(d.oidc_config(&config).address, "http://h");
    let none = d.oidc_event(OidcLoginEvent::Ready {
        auth_url: "https://x".to_string(),
        browser_error: Some("no browser".to_string()),
    });
    assert_eq!(none, None);
    assert_eq!(d.status, "Open this URL manually:\nno browser");
    let token = d.oidc_event(OidcLoginEvent::Success {
        token: "tok".to_string(),
    });
    assert_eq!(token.as_deref(), Some("tok"));
    assert!(!d.oidc_busy && d.oidc_auth_url.is_empty());
    d.complete(Some("sealed".to_string()));
    assert_eq!((d.status.as_str(), d.show_token_field), ("sealed", true));
    d.complete(None);
    assert_eq!(d.status, "Cursor API key loaded.");

    d.oidc_event(OidcLoginEvent::Failed("late".to_string()));
    assert_eq!(d.status, "late");
    d.oidc_started(Err("busy port".to_string()));
    assert_eq!((d.status.as_str(), d.oidc_busy), ("busy port", false));
    d.choose_method(AuthMethod::Token);
    assert_eq!(d.auth_method, AuthMethod::Token);
    app.close_auth();
    assert!(!app.dialog_open());
}

#[test]
fn signing_in_with_a_token() {
    let mut app = App::new(String::new());
    let config = OidcLoginConfig::default();
    app.open_auth_dialog(&config, " ".to_string(), "stored".to_string(), false);
    let d = app.auth_dialog.as_mut().unwrap();
    assert!(!d.show_token_field);
    assert!(d.try_token().is_none());
    assert_eq!(d.status, "Server address is required.");
    d.address = " http://h ".to_string();
    d.use_different_token();
    assert!(d.try_token().is_none());
    assert_eq!(d.status, "OpenBao token is required.");
    d.bao_token = " tok ".to_string();
    assert_eq!(
        d.try_token(),
        Some(("http://h".to_string(), "tok".to_string()))
    );
    assert_eq!(d.status, "Fetching Cursor API key…");
    d.token_result(None, Some("read-only".to_string()));
    assert_eq!(d.status, "Key loaded but token save failed: read-only");
    d.token_result(None, None);
    assert_eq!(d.status, "Cursor API key loaded.");
    d.token_result(Some("denied".to_string()), None);
    assert_eq!((d.status.as_str(), d.show_token_field), ("denied", true));
}
