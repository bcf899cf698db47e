use sync_memo::client::Command;
use sync_memo::daemon::{
    command_text, handle_command, strip_padding, DaemonAction, PID_FILE, REQUEST_BUFFER_SIZE,
    SOCKET_ADDR,
};
use sync_memo::handler::{FileHandler, WatchFile};

fn padded(text: &str) -> Vec<u8> {
    let mut buffer = vec![0u8; REQUEST_BUFFER_SIZE];
    buffer[..text.len()].copy_from_slice(text.as_bytes());
    buffer
}

fn handler() -> FileHandler {
    FileHandler::new(
        "/home/me/sync-memo/.sync-memo-config.json".to_owned(),
        vec![
            WatchFile::new("g1".to_owned(), "/home/me/a.md".to_owned()),
            WatchFile::new("g2".to_owned(), "/home/me/b.md".to_owned()),
        ],
    )
}

#[test]
fn daemon_paths() {
    assert_eq!(SOCKET_ADDR, "/tmp/sync-memo.sock");
    assert_eq!(PID_FILE, "/tmp/sync-memo.pid");
}

#[test]
fn padding_zeros_are_dropped() {
    assert_eq!(strip_padding(&[0, 65, 0, 66, 0, 0]), vec![65, 66]);
    assert_eq!(strip_padding(&[]), Vec::<u8>::new());
}

#[test]
fn request_text_of_a_padded_buffer() {
    assert_eq!(command_text(&padded("\"Kill\"")), Some("\"Kill\"".to_owned()));
    assert_eq!(command_text(&padded("")), Some("".to_owned()));
}

#[test]
fn request_text_keeps_non_ascii_text() {
    assert_eq!(command_text(&padded("{\"Add\":[\"メモ.md\"]}")), Some("{\"Add\":[\"メモ.md\"]}".to_owned()));
}

#[test]
fn request_that_is_not_utf8_has_no_text() {
    assert_eq!(command_text(&[0xff, 0xfe, 0, 0]), None);
}

#[test]
fn what_the_client_writes_the_daemon_reads() {
    for command in vec![
        Command::Show,
        Command::Kill,
        Command::Add(vec!["/tmp/a.md".to_owned(), "tab\there".to_owned()]),
    ] {
        let json = command.to_json();
        assert_eq!(command_text(&padded(&json)), Some(json));
    }
}

#[test]
fn kill_replies_and_exits() {
    assert_eq!(
        handle_command(&handler(), Command::Kill),
        DaemonAction::Shutdown { reply: "{\"Info\":\"daemon killed\"}".to_owned(), exit_code: 1 }
    );
}

#[test]
fn show_fetches_every_synced_gist() {
    assert_eq!(
        handle_command(&handler(), Command::Show),
        DaemonAction::ShowGists(vec!["g1".to_owned(), "g2".to_owned()])
    );
}

#[test]
fn add_adds_the_named_files() {
    assert_eq!(
        handle_command(&handler(), Command::Add(vec!["c.md".to_owned()])),
        DaemonAction::AddFiles(vec!["c.md".to_owned()])
    );
}
