use agent_manager::convert::{
    bash_to_nushell, conversion_result, strip_code_fence, CommandOutput, ConvertStep,
};
use agent_manager::dialogs::ConvertDialog;
use agent_manager::history::{
    push_convert_history, shows_snippet, snippet_hover, snippet_label, ConvertSnippet,
    CONVERT_HISTORY_MAX,
};

#[test]
fn strip_plain_passthrough() {
    assert_eq!(strip_code_fence("print 'hi'"), "print 'hi'");
}

#[test]
fn strip_nushell_fence() {
    assert_eq!(
        strip_code_fence("```nushell\nprint 'hi'\n```"),
        "print 'hi'"
    );
}

#[test]
fn strip_bare_fence() {
    assert_eq!(strip_code_fence("```\nls\n```"), "ls");
}

#[test]
fn a_conversion_is_run_and_read() {
    let agent = Ok("agent".to_string());
    match bash_to_nushell("ls -l", &agent, None) {
        ConvertStep::Run { program, args } => {
            assert_eq!(program, "agent");
            assert!(args.last().unwrap().contains("ls -l"));
        }
        _ => panic!("not run"),
    }
    let output = Ok(CommandOutput {
        success: true,
        status: "exit status: 0".to_string(),
        stdout: b"```nu\nls\n```\n".to_vec(),
        stderr: Vec::new(),
    });
    match bash_to_nushell("ls -l", &agent, Some(&output)) {
        ConvertStep::Done(Ok(text)) => assert_eq!(text, "ls"),
        _ => panic!("not converted"),
    }
    assert!(matches!(
        bash_to_nushell("  ", &agent, None),
        ConvertStep::Done(Err(_))
    ));
    match bash_to_nushell("ls", &Err("no agent".to_string()), None) {
        ConvertStep::Done(Err(e)) => assert_eq!(e, "no agent"),
        _ => panic!("no error"),
    }
}

#[test]
fn a_failed_conversion_says_why() {
    let e = conversion_result(false, "exit status: 1", "", "boom").unwrap_err();
    assert!(e.contains("boom"), "{e}");
    let e = conversion_result(false, "exit status: 1", "", "").unwrap_err();
    assert!(e.contains("exit status: 1"), "{e}");
    assert!(conversion_result(true, "", "  ", "").is_err());
}

#[test]
fn undecodable_output_is_still_read() {
    let output = Ok(CommandOutput {
        success: true,
        status: String::new(),
        stdout: b"l\xffs".to_vec(),
        stderr: Vec::new(),
    });
    match bash_to_nushell("ls", &Ok("agent".to_string()), Some(&output)) {
        ConvertStep::Done(Ok(text)) => assert_eq!(text, "l\u{fffd}s"),
        _ => panic!("not converted"),
    }
}

#[test]
fn the_history_is_bounded_and_newest_first() {
    let mut history: Vec<ConvertSnippet> = Vec::new();
    for i in 0..50 {
        push_convert_history(&mut history, &format!(" b{i} "), "n");
    }
    assert_eq!(history.len(), CONVERT_HISTORY_MAX);
    assert_eq!(history[0].bash, "b49");
    assert_eq!(history[39].bash, "b10");
    push_convert_history(&mut history, "b20", " n ");
    assert_eq!(history.len(), 40);
    assert_eq!(history[0].bash, "b20");
    assert_eq!(history.iter().filter(|s| s.bash == "b20").count(), 1);
    push_convert_history(&mut history, "  ", "n");
    assert_eq!(history[0].bash, "b20");
}

#[test]
fn a_snippet_is_labelled() {
    let s = ConvertSnippet {
        bash: "\n  ls -l\nmore".to_string(),
        nushell: "ls".to_string(),
    };
    assert_eq!(snippet_label(&s), "ls -l  →  ls");
    assert_eq!(
        snippet_hover(&s),
        "Bash:\n\n  ls -l\nmore\n\nNushell:\nls"
    );
    let mut d = ConvertDialog::default();
    assert!(!shows_snippet(&d, &s));
    d.bash = "ls -l\nmore".to_string();
    d.nushell = "ls ".to_string();
    assert!(shows_snippet(&d, &s));
    assert!(d.can_convert());
    assert!(d.can_copy());
}
