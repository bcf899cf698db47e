use sync_memo::watcher::{watch_step, WatchAction, INTERVAL};

#[test]
fn an_event_uploads_the_file() {
    assert_eq!(watch_step(true), WatchAction::Upload);
}

#[test]
fn a_closed_channel_stops_the_watcher() {
    assert_eq!(watch_step(false), WatchAction::Stop);
}

#[test]
fn events_are_merged_over_ten_seconds() {
    assert_eq!(INTERVAL, 10);
}
