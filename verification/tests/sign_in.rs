use agent_manager::auth::{
    apply_cursor_api_key, bao_token_paths, check_health, complete_oidc_login,
    cursor_auth_status_label, cursor_key_in, extract_errors, fetch_cursor_api_key,
    has_cursor_api_key, keys_in, load_bao_token, pick_cursor_key, read_value, resolve_bao_addr,
    restore_cursor_auth, save_bao_token, AuthError, AuthStep, FetchStep, Health, HealthReply,
};
use agent_manager::bao::{
    auth_url_request, exchange_request, form_post_request, read_auth_url, read_exchange,
};
use agent_manager::html::{error_html, html_escape, success_html};
use agent_manager::http::{
    format_send_error, http_response, is_success, parse_http_request, HttpReply, Method, SendError,
};
use agent_manager::json::parse_json;
use agent_manager::oidc::{
    login_timed_out, nonce_text, plan_login, LoginAction, OidcEnv, OidcLogin, OidcLoginConfig, OidcLoginEvent,
};
use agent_manager::params::Params;
use agent_manager::urlenc::{
    encode_form, form_params, query_params, urlencoding_decode, urlencoding_encode,
};

fn ok(body: &str) -> HttpReply {
    HttpReply {
        status: 200,
        body: body.to_string(),
    }
}

fn send_error(message: &str) -> SendError {
    SendError {
        url: None,
        causes: Vec::new(),
        message: message.to_string(),
    }
}

fn login() -> OidcLogin {
    let plan = plan_login(&OidcLoginConfig {
        address: "http://127.0.0.1:8200".to_string(),
        mount: "oidc".to_string(),
        role: "dev".to_string(),
        listen_port: 8251,
    })
    .unwrap();
    OidcLogin::new(
        &plan,
        "nonce".to_string(),
        "https://example.com/authorize?x=1".to_string(),
        None,
    )
}

fn callback(query: &str) -> Vec<u8> {
    format!("GET /oidc/callback?{query} HTTP/1.1\r\nHost: localhost\r\nConnection: close\r\n\r\n")
        .into_bytes()
}

#[test]
fn query_params_decodes() {
    let p = query_params("state=abc%2Fdef&code=x+y");
    assert_eq!(p.get("state").map(String::as_str), Some("abc/def"));
    assert_eq!(p.get("code").map(String::as_str), Some("x y"));
}

#[test]
fn parse_http_get() {
    let req = "GET /oidc/callback?code=1&state=2 HTTP/1.1\r\nHost: localhost\r\n\r\n";
    let (m, p, b) = parse_http_request(req).unwrap();
    assert_eq!(m, "GET");
    assert!(p.starts_with("/oidc/callback?"));
    assert!(b.is_empty());
}

#[test]
fn cursor_key_field_priority() {
    let mut keys = Params::new();
    keys.insert("cursor_api_key".into(), "lower".into());
    keys.insert("CURSOR_API_KEY".into(), "upper".into());
    let picked = pick_cursor_key(&keys);
    assert_eq!(picked.as_deref(), Some("upper"));
}

#[test]
fn oidc_exchange_against_mock() {
    let request = exchange_request("http://127.0.0.1:1", "oidc", "st", "cd", "nonce");
    assert_eq!(request.method, Method::Get);
    assert_eq!(request.url, "http://127.0.0.1:1/v1/auth/oidc/oidc/callback");
    assert_eq!(
        request.query,
        vec![
            ("state".to_string(), "st".to_string()),
            ("code".to_string(), "cd".to_string()),
            ("client_nonce".to_string(), "nonce".to_string()),
        ]
    );
    let token = read_exchange(&ok(r#"{"auth":{"client_token":"s.testid"}}"#)).unwrap();
    assert_eq!(token, "s.testid");
}

#[test]
fn auth_url_against_mock() {
    let request = auth_url_request(
        "http://127.0.0.1:1",
        "oidc",
        "dev",
        "http://localhost:8250/oidc/callback",
        "nonce",
    );
    assert_eq!(request.method, Method::Post);
    assert_eq!(request.url, "http://127.0.0.1:1/v1/auth/oidc/oidc/auth_url");
    assert_eq!(
        request.body.as_deref(),
        Some(
            r#"{"client_nonce":"nonce","redirect_uri":"http://localhost:8250/oidc/callback","role":"dev"}"#
        )
    );
    let body = r#"{"data":{"auth_url":"https://example.com/authorize?x=1"}}"#;
    let url = read_auth_url(&Ok(ok(body)), "dev", "http://localhost:8250/oidc/callback").unwrap();
    assert_eq!(url, "https://example.com/authorize?x=1");
}

#[test]
fn full_login_callback_roundtrip() {
    let mut login = login();
    let mut saw_ready = false;
    match login.try_recv() {
        Some(OidcLoginEvent::Ready { .. }) => saw_ready = true,
        Some(OidcLoginEvent::Failed(e)) => panic!("unexpected fail before callback: {e}"),
        Some(OidcLoginEvent::Success { .. }) => panic!("success too early"),
        None => {}
    }
    assert!(saw_ready);
    assert!(matches!(login.tick(false), LoginAction::Accept));
    assert!(matches!(login.accepted(), LoginAction::Read));

    match login.requested(&callback("code=abc&state=xyz")) {
        LoginAction::Send { request } => {
            assert_eq!(
                request.url,
                "http://127.0.0.1:8200/v1/auth/oidc/oidc/callback"
            );
        }
        _ => panic!("no exchange"),
    }
    let reply = Ok(ok(r#"{"auth":{"client_token":"s.oidc-token"}}"#));
    let resp = match login.replied(&reply) {
        LoginAction::Finish { response } => response.unwrap(),
        _ => panic!("not finished"),
    };
    assert!(resp.contains("Authentication successful"), "{resp}");

    let token = match login.try_recv() {
        Some(OidcLoginEvent::Success { token }) => Some(token),
        Some(OidcLoginEvent::Failed(e)) => panic!("login failed: {e}"),
        _ => None,
    };
    assert_eq!(token.as_deref(), Some("s.oidc-token"));
    assert!(login.is_done());
    assert!(login.try_recv().is_none());
}

#[test]
fn a_foreign_request_is_turned_away() {
    let mut login = login();
    let _ = login.try_recv();
    match login.requested(&b"GET /favicon.ico HTTP/1.1\r\n\r\n".to_vec()) {
        LoginAction::Close { response } => {
            let text = response.unwrap();
            assert!(text.starts_with("HTTP/1.1 404"));
            assert!(text.ends_with("\r\n\r\nnot found"));
        }
        _ => panic!("not closed"),
    }
    match login.requested(&b"PUT /oidc/callback HTTP/1.1\r\n\r\n".to_vec()) {
        LoginAction::Close { response } => {
            assert!(response.unwrap().starts_with("HTTP/1.1 405"));
        }
        _ => panic!("not closed"),
    }
    assert!(!login.is_done());
    assert!(login.try_recv().is_none());
}

#[test]
fn an_exchange_is_tried_twice() {
    let mut login = login();
    let _ = login.try_recv();
    assert!(matches!(
        login.requested(&callback("code=abc&state=xyz")),
        LoginAction::Send { .. }
    ));
    let failure = Err(send_error("connection reset"));
    assert!(matches!(
        login.replied(&failure),
        LoginAction::SendAgain { .. }
    ));
    assert!(matches!(login.replied(&failure), LoginAction::Finish { .. }));
    match login.try_recv() {
        Some(OidcLoginEvent::Failed(m)) => assert!(m.contains("OIDC callback failed")),
        _ => panic!("no verdict"),
    }
}

#[test]
fn a_provider_error_ends_the_login() {
    let mut login = login();
    let _ = login.try_recv();
    let request = callback("error=denied&error_description=not+today");
    match login.requested(&request) {
        LoginAction::Finish { response } => {
            let text = response.unwrap();
            assert!(text.starts_with("HTTP/1.1 400"));
            assert!(text.contains("not today"));
        }
        _ => panic!("not finished"),
    }
    match login.try_recv() {
        Some(OidcLoginEvent::Failed(m)) => assert_eq!(m, "OIDC provider error: not today"),
        _ => panic!("no verdict"),
    }
}

#[test]
fn a_callback_without_code_fails() {
    let mut login = login();
    let _ = login.try_recv();
    let _ = login.requested(&callback("state=xyz"));
    match login.try_recv() {
        Some(OidcLoginEvent::Failed(m)) => assert_eq!(m, "OIDC callback missing state or code."),
        _ => panic!("no verdict"),
    }
}

#[test]
fn a_posted_id_token_is_handed_on() {
    let mut login = login();
    let _ = login.try_recv();
    let body = "state=s1&code=c1&id_token=t1";
    let text = format!("POST /oidc/callback HTTP/1.1\r\n\r\n{body}");
    match login.requested_text(&text) {
        LoginAction::Send { request } => {
            assert_eq!(request.method, Method::Post);
            assert_eq!(
                request.body.as_deref(),
                Some("client_nonce=nonce&state=s1&code=c1&id_token=t1")
            );
        }
        _ => panic!("not posted"),
    }
    match login.replied(&Ok(ok(""))) {
        LoginAction::Send { request } => assert_eq!(request.method, Method::Get),
        _ => panic!("no exchange"),
    }
}

#[test]
fn a_login_can_be_cancelled_or_time_out() {
    let mut cancelled = login();
    let _ = cancelled.try_recv();
    cancelled.cancel();
    assert!(matches!(
        cancelled.tick(false),
        LoginAction::Finish { response: None }
    ));
    match cancelled.try_recv() {
        Some(OidcLoginEvent::Failed(m)) => assert_eq!(m, "OIDC login cancelled."),
        _ => panic!("no verdict"),
    }

    let mut late = login();
    let _ = late.try_recv();
    let _ = late.tick(true);
    match late.try_recv() {
        Some(OidcLoginEvent::Failed(m)) => assert_eq!(m, "Timed out waiting for OIDC provider."),
        _ => panic!("no verdict"),
    }

    let mut deaf = login();
    let _ = deaf.try_recv();
    let _ = deaf.listen_failed("gone");
    match deaf.try_recv() {
        Some(OidcLoginEvent::Failed(m)) => assert_eq!(m, "OIDC listener error: gone"),
        _ => panic!("no verdict"),
    }
}

#[test]
fn bytes_that_are_no_text_are_read_as_far_as_they_go() {
    let mut login = login();
    let _ = login.try_recv();
    let mut request = b"GET /elsewhere\xff HTTP/1.1\r\n\r\n".to_vec();
    request.push(0xfe);
    assert!(matches!(
        login.requested(&request),
        LoginAction::Close { .. }
    ));
}

#[test]
fn a_login_needs_an_address() {
    let config = OidcLoginConfig {
        address: "  ".to_string(),
        ..OidcLoginConfig::default()
    };
    assert_eq!(
        plan_login(&config).err().as_deref(),
        Some("Server address is required.")
    );
}

#[test]
fn a_plan_is_normalised() {
    let plan = plan_login(&OidcLoginConfig {
        address: " https://bao.example/ ".to_string(),
        mount: "".to_string(),
        role: " dev ".to_string(),
        listen_port: 8251,
    })
    .unwrap();
    assert_eq!(plan.address, "https://bao.example");
    assert_eq!(plan.mount, "oidc");
    assert_eq!(plan.role, "dev");
    assert_eq!(plan.listen_addr, "127.0.0.1:8251");
    assert_eq!(plan.redirect_uri, "http://localhost:8251/oidc/callback");
}

#[test]
fn the_environment_overrides_the_defaults() {
    let env = OidcEnv {
        bao_mount: None,
        vault_mount: Some("corp".to_string()),
        bao_role: Some("ops".to_string()),
        vault_role: Some("other".to_string()),
        manager_port: None,
        bao_port: Some("9000".to_string()),
        vault_port: Some("9001".to_string()),
    };
    let config = OidcLoginConfig::from_env_defaults(&env);
    assert_eq!(config.mount, "corp");
    assert_eq!(config.role, "ops");
    assert_eq!(config.listen_port, 9000);
    assert_eq!(OidcLoginConfig::default().listen_port, 8251);
}

#[test]
fn a_nonce_is_hexadecimal() {
    assert_eq!(nonce_text(&vec![0x00, 0x0f, 0xa5, 0xff]), "000fa5ff");
}

#[test]
fn a_refused_auth_url_says_why() {
    let refused = Ok(HttpReply {
        status: 400,
        body: r#"{"errors":["role not found"]}"#.to_string(),
    });
    assert_eq!(
        read_auth_url(&refused, "dev", "http://localhost/x"),
        Err("OIDC auth_url failed (HTTP 400): role not found".to_string())
    );
    let empty = Ok(ok(r#"{"data":{"auth_url":""}}"#));
    assert_eq!(
        read_auth_url(&empty, "dev", "http://localhost/x"),
        Err(
            "Unable to authorize role \"dev\" with redirect_uri \"http://localhost/x\". \
             Check OpenBao logs."
                .to_string()
        )
    );
    let unparsed = Ok(ok("<html>"));
    let message = read_auth_url(&unparsed, "dev", "x").unwrap_err();
    assert!(message.starts_with("auth_url parse error: "), "{message}");
}

#[test]
fn an_auth_url_has_to_be_a_url() {
    let odd = Ok(ok(r#"{"data":{"auth_url":"no url"}}"#));
    let message = read_auth_url(&odd, "dev", "x").unwrap_err();
    assert_eq!(
        message,
        "invalid auth_url from server: relative URL without a base"
    );
}

#[test]
fn an_exchange_without_token_fails() {
    assert_eq!(
        read_exchange(&ok("{}")),
        Err("OIDC callback returned no client_token.".to_string())
    );
    let message = read_exchange(&ok("")).unwrap_err();
    assert!(message.starts_with("OIDC callback parse error: "), "{message}");
    let refused = HttpReply {
        status: 403,
        body: "denied".to_string(),
    };
    assert_eq!(
        read_exchange(&refused),
        Err("OIDC callback failed (HTTP 403): denied".to_string())
    );
}

#[test]
fn a_form_post_holds_what_is_there() {
    let mut params = Params::new();
    params.insert("code".to_string(), "a b".to_string());
    let request = form_post_request("http://h", "m", &params, "n");
    assert_eq!(request.body.as_deref(), Some("client_nonce=n&code=a+b"));
}

#[test]
fn url_encoding_round_trip() {
    let text = "a b/ü?&=+%~";
    let encoded = urlencoding_encode(text);
    assert_eq!(encoded, "a+b%2F%C3%BC%3F%26%3D%2B%25~");
    assert_eq!(urlencoding_decode(&encoded), Ok(text.to_string()));
    assert_eq!(urlencoding_decode("%zz"), Err(()));
    assert_eq!(urlencoding_decode("%ff"), Err(()));
    assert_eq!(urlencoding_decode("%4"), Ok("%4".to_string()));
    assert_eq!(urlencoding_decode("%+5"), Ok("\u{5}".to_string()));
    assert_eq!(urlencoding_decode("%é"), Err(()));
}

#[test]
fn a_form_reads_back() {
    let pairs = vec![
        ("a".to_string(), "1 & 2".to_string()),
        ("b".to_string(), "ü".to_string()),
    ];
    let read = form_params(&encode_form(&pairs));
    assert_eq!(read.value("a").as_deref(), Some("1 & 2"));
    assert_eq!(read.value("b").as_deref(), Some("ü"));
    assert_eq!(read.value("c"), None);
}

#[test]
fn escaped_text_is_inert() {
    assert_eq!(
        html_escape("<a href=\"x\">&</a>"),
        "&lt;a href=&quot;x&quot;&gt;&amp;&lt;/a&gt;"
    );
    assert_eq!(html_escape("plain"), "plain");
    assert!(error_html("Login failed", "<b>").contains("&lt;b&gt;"));
    assert!(success_html().contains("Authentication successful"));
}

#[test]
fn a_response_ends_with_its_body() {
    let text = http_response(200, "text/plain", "hé");
    assert!(text.starts_with("HTTP/1.1 200 OK\r\n"));
    assert!(text.contains("Content-Length: 3\r\n"));
    assert!(text.ends_with("\r\n\r\nhé"));
    assert!(is_success(204));
    assert!(!is_success(302));
}

#[test]
fn a_send_error_names_its_cause() {
    let text = format_send_error("OIDC callback failed", &send_error("refused"));
    assert!(text.starts_with("OIDC callback failed"), "{text}");
    assert!(text.contains("refused"), "{text}");
}

#[test]
fn the_server_has_to_be_open() {
    let reply = |initialized, sealed| {
        Ok(HealthReply {
            body: String::new(),
            parsed: Ok(Health {
                initialized,
                sealed,
            }),
        })
    };
    assert!(check_health(&reply(true, false)).is_none());
    assert_eq!(
        check_health(&reply(true, true)).unwrap().message(),
        "OpenBao is sealed"
    );
    assert_eq!(
        check_health(&reply(false, false)).unwrap().message(),
        "OpenBao is not initialized"
    );
    assert_eq!(
        check_health(&Err("down".to_string())).unwrap().message(),
        "health check failed: down"
    );
    let unread = Ok(HealthReply {
        body: "x".to_string(),
        parsed: Err("no json".to_string()),
    });
    assert_eq!(
        check_health(&unread).unwrap().message(),
        "health parse error: no json: x"
    );
}

#[test]
fn a_key_is_fetched_step_by_step() {
    let first = fetch_cursor_api_key("http://h/", " tok ", None, None);
    match first {
        FetchStep::AskHealth(r) => {
            assert_eq!(r.url, "http://h/v1/sys/health");
            assert_eq!(
                r.headers[0],
                ("X-Vault-Token".to_string(), "tok".to_string())
            );
        }
        _ => panic!("no health check"),
    }
    let open = Ok(HealthReply {
        body: String::new(),
        parsed: Ok(Health {
            initialized: true,
            sealed: false,
        }),
    });
    match fetch_cursor_api_key("http://h", "tok", Some(&open), None) {
        FetchStep::AskKeys(r) => assert_eq!(r.url, "http://h/v1/secret/data/ai-api-keys"),
        _ => panic!("no keys asked"),
    }
    let keys = Ok(ok(
        r#"{"data":{"data":{"cursor_api_key":"low","CURSOR_API_KEY":" up "}}}"#,
    ));
    match fetch_cursor_api_key("http://h", "tok", Some(&open), Some(&keys)) {
        FetchStep::Done(Ok(key)) => assert_eq!(key.trim(), "up"),
        _ => panic!("no key"),
    }
}

#[test]
fn a_refusal_is_explained() {
    let refused = Ok(HttpReply {
        status: 403,
        body: r#"{"errors":["permission denied"]}"#.to_string(),
    });
    let e = read_value(&refused).err().unwrap();
    assert!(e.message().contains("permission denied"), "{}", e.message());
    let silent = Ok(HttpReply {
        status: 503,
        body: String::new(),
    });
    let e = read_value(&silent).err().unwrap();
    assert!(e.message().contains("Service Unavailable"), "{}", e.message());
    assert_eq!(
        extract_errors(r#"{"errors":["a","b"]}"#).as_deref(),
        Some("a; b")
    );
}

#[test]
fn keys_are_read_from_a_secret() {
    let v = parse_json(r#"{"data":{"data":{"a":"x","n":7}}}"#).unwrap();
    let keys = keys_in(&v);
    assert_eq!(keys.value("a").as_deref(), Some("x"));
    assert_eq!(keys.value("n").as_deref(), Some("7"));
    assert!(cursor_key_in(&v).is_err());
}

#[test]
fn the_token_comes_from_the_environment_first() {
    let files = vec![None, Some("\n".to_string()), Some(" from-file \n".to_string())];
    assert_eq!(load_bao_token(Some(" b "), Some("v"), &files), "b");
    assert_eq!(load_bao_token(None, Some(" v "), &files), "v");
    assert_eq!(load_bao_token(Some(" "), Some("v"), &files), "from-file");
    assert_eq!(load_bao_token(None, None, &files), "from-file");
    assert_eq!(load_bao_token(None, None, &Vec::new()), "");
    let paths = bao_token_paths(None, Some("/home/u"));
    assert!(paths.contains(&"/home/u/.bao-token".to_string()), "{paths:?}");
}

#[test]
fn addresses_are_resolved() {
    assert_eq!(resolve_bao_addr(Some("http://b"), Some("http://v")), "http://b");
    assert_eq!(resolve_bao_addr(None, Some("http://v")), "http://v");
    assert_eq!(resolve_bao_addr(None, None), "https://openbao.boxd.sh");
}

#[test]
fn a_token_is_stored_at_home() {
    let file = save_bao_token(" tok ", Some("/home/u")).ok().unwrap();
    assert_eq!(file.path, "/home/u/.bao-token");
    assert_eq!(file.contents.trim(), "tok");
    assert!(save_bao_token("tok", None).is_err());
    assert!(save_bao_token(" ", Some("/home/u")).is_err());
    let paths = bao_token_paths(Some("/etc/token"), Some("/home/u"));
    assert_eq!(paths.len(), 3);
    let files: Vec<Option<String>> = paths
        .iter()
        .map(|p| {
            if *p == file.path {
                Some(file.contents.clone())
            } else {
                None
            }
        })
        .collect();
    assert_eq!(load_bao_token(None, None, &files), "tok");
}

#[test]
fn a_blank_key_is_no_key() {
    assert!(has_cursor_api_key(Some("k")));
    assert!(!has_cursor_api_key(Some(" ")));
    assert!(!has_cursor_api_key(None));
    assert_eq!(apply_cursor_api_key("  "), None);
    assert_eq!(apply_cursor_api_key(" k ").as_deref(), Some("k"));
    assert_ne!(
        cursor_auth_status_label(Some("k")),
        cursor_auth_status_label(None)
    );
}

#[test]
fn a_stored_token_restores_the_key() {
    match restore_cursor_auth(None, "http://h", "tok", None) {
        Ok(AuthStep::Fetch { address, token }) => {
            assert_eq!(address, "http://h");
            assert_eq!(token, "tok");
        }
        _ => panic!("not fetched"),
    }
    let fetched: Result<String, AuthError> = Ok("key".to_string());
    match restore_cursor_auth(None, "http://h", "tok", Some(&fetched)) {
        Ok(AuthStep::Export { key }) => assert_eq!(key, "key"),
        _ => panic!("not exported"),
    }
    assert!(matches!(
        restore_cursor_auth(Some("key"), "http://h", "tok", None),
        Ok(AuthStep::Finished)
    ));
    assert!(restore_cursor_auth(None, "http://h", "", None).is_err());
}

#[test]
fn a_login_stores_the_token_before_it_fetches() {
    match complete_oidc_login("http://h", "tok", Some("/home/u"), None, None) {
        Ok(AuthStep::Write(file)) => assert_eq!(file.path, "/home/u/.bao-token"),
        _ => panic!("not written"),
    }
    let written = Ok(());
    assert!(matches!(
        complete_oidc_login("http://h", "tok", Some("/home/u"), Some(&written), None),
        Ok(AuthStep::Fetch { .. })
    ));
    let failed = Err("disk full".to_string());
    let e = complete_oidc_login("http://h", "tok", Some("/home/u"), Some(&failed), None)
        .err()
        .unwrap();
    assert!(e.message().contains("disk full"));
}

#[test]
fn a_sign_in_waits_two_minutes() {
    assert!(!login_timed_out(0));
    assert!(!login_timed_out(120_000));
    assert!(login_timed_out(120_001));
    let mut login = login();
    assert!(matches!(login.try_recv(), Some(OidcLoginEvent::Ready { .. })));
    assert!(matches!(login.tick(login_timed_out(120_000)), LoginAction::Accept));
    assert!(matches!(
        login.tick(login_timed_out(120_001)),
        LoginAction::Finish { response: None }
    ));
    match login.try_recv() {
        Some(OidcLoginEvent::Failed(e)) => assert_eq!(e, "Timed out waiting for OIDC provider."),
        _ => panic!("not timed out"),
    }
}

#[test]
fn errors_come_from_texts() {
    assert_eq!(AuthError::from("sealed").message(), "sealed");
    assert_eq!(AuthError::from("sealed".to_string()).message(), "sealed");
}
