use agent_manager::cloud::{
    activity_label, is_terminal_run, CloudAgentDetail, CloudAgentSummary, CloudRunSnapshot,
    CloudWatch,
};
use agent_manager::cloud_api::{
    create_agent, extract_error_message, list_agents, parse_agent_summary, parse_json_response,
    parse_run_snapshot, poll_agent, resolve_api_key, ApiFailure, CreateStep, ListStep, NewAgent,
    PollStep,
};
use agent_manager::http::{HttpReply, Method};
use agent_manager::json::parse_json;
use agent_manager::repo::{
    git_remote_args, git_remote_url, normalize_repo_url, repo_slug, workspace_for_repo,
};

fn summary(name: &str, status: &str) -> CloudAgentSummary {
    CloudAgentSummary {
        id: "bc-1".to_string(),
        name: name.to_string(),
        status: status.to_string(),
        url: "https://cursor.com/agents?id=bc-1".to_string(),
        repo_url: None,
        updated_at: None,
        latest_run_id: Some("run-1".to_string()),
    }
}

fn detail(name: &str, status: &str) -> CloudAgentDetail {
    CloudAgentDetail {
        summary: summary(name, status),
        model: None,
    }
}

fn run(status: &str) -> CloudRunSnapshot {
    CloudRunSnapshot {
        status: status.to_string(),
        result: Some("all done".to_string()),
        branch: Some("cursor/fix".to_string()),
        pr_url: None,
    }
}

fn ok(body: &str) -> Result<HttpReply, ApiFailure> {
    Ok(HttpReply {
        status: 200,
        body: body.to_string(),
    })
}

#[test]
fn repo_slug_normalizes_https() {
    assert_eq!(
        repo_slug("https://github.com/org/repo.git"),
        "github.com/org/repo"
    );
}

#[test]
fn normalize_repo_url_adds_scheme() {
    assert_eq!(
        normalize_repo_url("github.com/org/repo").unwrap(),
        "https://github.com/org/repo"
    );
}

#[test]
fn a_blank_repository_is_refused() {
    assert!(normalize_repo_url("  ").is_err());
    assert_eq!(
        normalize_repo_url(" https://example.com/x ").unwrap(),
        "https://example.com/x"
    );
}

#[test]
fn a_live_agent_says_what_it_does() {
    assert_eq!(
        activity_label("ACTIVE", Some("RUNNING")).as_deref(),
        Some("Run · running")
    );
    assert_eq!(
        activity_label("active", None).as_deref(),
        Some("Cloud agent running…")
    );
    assert_eq!(
        activity_label("IDLE", Some("FINISHED")).as_deref(),
        Some("Finished")
    );
    assert_eq!(activity_label("archived", None).as_deref(), Some("Archived"));
    assert_eq!(activity_label("IDLE", None), None);
    assert!(is_terminal_run(Some("FINISHED")));
    assert!(!is_terminal_run(Some("RUNNING")));
}

#[test]
fn a_poll_keeps_the_users_title() {
    let mut watch = CloudWatch::new(7, summary("Fix login", "ACTIVE"), "/w".to_string());
    assert_eq!(watch.title, "Fix login");
    watch.set_user_title(" mine ");
    assert_eq!(watch.title, "mine");
    watch.apply_poll(&detail("Other", "ACTIVE"), Some(&run("RUNNING")));
    assert_eq!(watch.title, "mine");
    assert_eq!(watch.branch.as_deref(), Some("cursor/fix"));
    assert!(watch.alive());
    assert!(watch.has_activity());
    assert_eq!(watch.summary.as_deref(), Some("all done"));
    watch.apply_poll(&detail("Other", "IDLE"), Some(&run("FINISHED")));
    assert!(!watch.alive());
    let once = watch.clone();
    watch.apply_poll(&detail("Other", "IDLE"), Some(&run("FINISHED")));
    assert_eq!(once.title, watch.title);
    assert_eq!(once.activity, watch.activity);
}

#[test]
fn a_poll_renames_an_unnamed_agent() {
    let mut watch = CloudWatch::new(7, summary("Fix login", "ACTIVE"), "/w".to_string());
    watch.set_user_title("  ");
    assert_eq!(watch.title, "Fix login");
    watch.apply_poll(&detail("Other", "ACTIVE"), None);
    assert_eq!(watch.title, "Other");
    watch.apply_poll(&detail("Other", "IDLE"), Some(&run("FINISHED")));
    assert_eq!(watch.title, "Other (finished)");
}

#[test]
fn agents_are_listed() {
    match list_agents("key", 500, None) {
        ListStep::Ask(r) => {
            assert_eq!(r.method, Method::Get);
            assert_eq!(r.basic_user.as_deref(), Some("key"));
            assert!(
                r.url
                    .starts_with("https://api.cursor.com/v1/agents?limit=100"),
                "{}",
                r.url
            );
        }
        _ => panic!("not asked"),
    }
    let body = r#"{"items":[{"id":"bc-1","name":"A","status":"ACTIVE","url":"u"},{"name":"no id"}]}"#;
    match list_agents("key", 5, Some(&ok(body))) {
        ListStep::Done(Ok(agents)) => {
            assert_eq!(agents.len(), 1);
            assert_eq!(agents[0].id, "bc-1");
            assert_eq!(agents[0].name, "A");
        }
        _ => panic!("not listed"),
    }
    match list_agents("key", 5, Some(&Err(ApiFailure::Send("offline".to_string())))) {
        ListStep::Done(Err(e)) => assert!(e.contains("offline"), "{e}"),
        _ => panic!("no error"),
    }
}

#[test]
fn an_agent_is_polled_with_its_run() {
    assert!(matches!(
        poll_agent("key", "bc-1", None, None),
        PollStep::AskAgent(_)
    ));
    let agent = ok(r#"{"id":"bc-1","name":"A","status":"ACTIVE","url":"u","latestRunId":"run-9"}"#);
    match poll_agent("key", "bc-1", Some(&agent), None) {
        PollStep::AskRun(r) => assert!(r.url.contains("run-9"), "{}", r.url),
        _ => panic!("run not asked"),
    }
    let run = ok(r#"{"status":"RUNNING"}"#);
    match poll_agent("key", "bc-1", Some(&agent), Some(&run)) {
        PollStep::Done(Ok((d, Some(r)))) => {
            assert_eq!(d.summary.name, "A");
            assert_eq!(r.status, "RUNNING");
        }
        _ => panic!("not polled"),
    }
}

#[test]
fn an_agent_is_made() {
    let new = NewAgent {
        repo_url: "github.com/org/repo".to_string(),
        starting_ref: None,
        prompt: " do it ".to_string(),
        model: None,
        name: None,
    };
    match create_agent("key", &new, None) {
        CreateStep::Ask(r) => {
            assert_eq!(r.method, Method::Post);
            let body = r.body.unwrap();
            assert!(body.contains("do it"), "{body}");
            assert!(body.contains("github.com/org/repo"), "{body}");
        }
        _ => panic!("not asked"),
    }
    let blank = NewAgent {
        repo_url: "github.com/org/repo".to_string(),
        starting_ref: None,
        prompt: "  ".to_string(),
        model: None,
        name: None,
    };
    assert!(matches!(
        create_agent("key", &blank, None),
        CreateStep::Done(Err(_))
    ));
}

#[test]
fn refusals_are_explained() {
    let refused = HttpReply {
        status: 401,
        body: r#"{"error":{"message":"bad key"}}"#.to_string(),
    };
    let e = parse_json_response(&refused).err().unwrap();
    assert!(e.contains("bad key"), "{e}");
    assert_eq!(
        extract_error_message(r#"{"error":" bad key "}"#).as_deref(),
        Some("bad key")
    );
    assert_eq!(
        extract_error_message(r#"{"message":"first","error":"second"}"#).as_deref(),
        Some("first")
    );
    assert_eq!(
        extract_error_message(r#"{"error":{"message":"nested"}}"#),
        None
    );
    assert_eq!(extract_error_message("[]"), None);
    assert!(resolve_api_key(Some(" ")).is_err());
    assert_eq!(resolve_api_key(Some(" k ")).unwrap(), "k");
}

#[test]
fn summaries_need_an_id() {
    assert!(parse_agent_summary(&parse_json(r#"{"name":"x"}"#).unwrap()).is_none());
    let r = parse_run_snapshot(&parse_json(r#"{"status":"FINISHED","result":"ok"}"#).unwrap());
    assert_eq!(r.status, "FINISHED");
    assert_eq!(r.result.as_deref(), Some("ok"));
}

#[test]
fn a_repository_has_a_workspace() {
    assert_eq!(
        git_remote_args("/w"),
        vec!["-C", "/w", "remote", "get-url", "origin"]
    );
    assert_eq!(
        git_remote_url(true, &b"https://github.com/org/repo.git\n".to_vec()).as_deref(),
        Some("https://github.com/org/repo.git")
    );
    assert_eq!(git_remote_url(false, &b"x".to_vec()), None);
    assert_eq!(git_remote_url(true, &b" \n".to_vec()), None);
    assert_eq!(
        git_remote_url(true, &vec![b'x', 0xff]).as_deref(),
        Some("x\u{fffd}")
    );
    let there = workspace_for_repo(
        "https://github.com/org/repo",
        Some("/cwd"),
        Some("/home/u"),
        true,
    );
    assert_eq!(there, "/home/u/code/repo");
    let absent = workspace_for_repo(
        "https://github.com/org/repo",
        Some("/cwd"),
        Some("/home/u"),
        false,
    );
    assert_eq!(absent, "github.com/org/repo");
    let here = workspace_for_repo("https://w/", Some("w"), None, false);
    assert_eq!(here, "w");
}
