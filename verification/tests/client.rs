use sync_memo::client::{Client, Command, Response, LOG_ERROR, LOG_INFO};

#[test]
fn info_level_builds_an_info_response() {
    assert_eq!(Response::with_log_level("info", "ok"), Response::Info("ok".to_owned()));
    assert_eq!(Response::with_log_level(LOG_INFO, "ok"), Response::with_info("ok"));
}

#[test]
fn any_other_level_builds_an_error_response() {
    assert_eq!(Response::with_log_level("error", "bad"), Response::Error("bad".to_owned()));
    assert_eq!(Response::with_log_level("warn", "bad"), Response::Error("bad".to_owned()));
    assert_eq!(Response::with_log_level("", "bad"), Response::Error("bad".to_owned()));
    assert_eq!(Response::with_log_level(LOG_ERROR, "bad"), Response::with_error("bad"));
}

#[test]
fn responses_are_logged_at_their_level() {
    let info = Response::with_info("daemon killed");
    assert_eq!(info.log_level(), "info");
    assert_eq!(info.payload(), "daemon killed");
    let error = Response::with_error("no such socket");
    assert_eq!(error.log_level(), "error");
    assert_eq!(error.payload(), "no such socket");
}

#[test]
fn response_json_wraps_the_payload_in_its_variant() {
    assert_eq!(Response::with_info("daemon killed").to_string(), "{\"Info\":\"daemon killed\"}");
    assert_eq!(Response::with_error("oops").to_string(), "{\"Error\":\"oops\"}");
}

#[test]
fn response_json_escapes_the_payload() {
    assert_eq!(
        Response::with_error("say \"hi\"\\\n").to_string(),
        "{\"Error\":\"say \\\"hi\\\"\\\\\\n\"}"
    );
}

#[test]
fn unit_commands_are_bare_strings() {
    assert_eq!(Command::Show.to_json(), "\"Show\"");
    assert_eq!(Command::Kill.to_json(), "\"Kill\"");
}

#[test]
fn add_command_lists_the_files() {
    let c = Command::Add(vec!["a.md".to_owned(), "/tmp/b \"c\".md".to_owned()]);
    assert_eq!(c.to_json(), "{\"Add\":[\"a.md\",\"/tmp/b \\\"c\\\".md\"]}");
    assert_eq!(Command::Add(vec![]).to_json(), "{\"Add\":[]}");
}

#[test]
fn client_talks_to_the_daemon_socket() {
    assert_eq!(Client::new().socket(), "/tmp/sync-memo.sock");
}

#[test]
fn response_json_escapes_control_characters() {
    assert_eq!(
        Response::with_info("\u{8}\u{c}\r\t\u{1}\u{1f}").to_string(),
        "{\"Info\":\"\\b\\f\\r\\t\\u0001\\u001f\"}"
    );
}

#[test]
fn response_json_keeps_non_ascii_text() {
    assert_eq!(Response::with_info("メモ ✓").to_string(), "{\"Info\":\"メモ ✓\"}");
}
