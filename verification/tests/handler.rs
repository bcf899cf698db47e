use sync_memo::handler::{settings_after_add, FileHandler, WatchFile};

#[test]
fn watch_file_keeps_its_parts() {
    let w = WatchFile::new("g1".to_owned(), "/home/me/a.md".to_owned());
    assert_eq!(w.gist_id(), "g1");
    assert_eq!(w.file_path(), "/home/me/a.md");
}

#[test]
fn file_ids_follow_the_settings_order() {
    let h = FileHandler::new(
        "/s.json".to_owned(),
        vec![
            WatchFile::new("z".to_owned(), "/a".to_owned()),
            WatchFile::new("a".to_owned(), "/b".to_owned()),
            WatchFile::new("z".to_owned(), "/c".to_owned()),
        ],
    );
    assert_eq!(h.get_file_ids(), vec!["z".to_owned(), "a".to_owned(), "z".to_owned()]);
    assert_eq!(h.path_to_setting(), "/s.json");
    assert_eq!(h.files().len(), 3);
}

#[test]
fn no_files_no_ids() {
    let h = FileHandler::new("/s.json".to_owned(), vec![]);
    assert!(h.get_file_ids().is_empty());
}

#[test]
fn added_file_goes_to_the_end_of_the_settings() {
    let saved = vec![
        WatchFile::new("g1".to_owned(), "/a".to_owned()),
        WatchFile::new("g2".to_owned(), "/b".to_owned()),
    ];
    let added = WatchFile::new("g3".to_owned(), "/c".to_owned());
    assert_eq!(
        settings_after_add(saved, added),
        vec![
            WatchFile::new("g1".to_owned(), "/a".to_owned()),
            WatchFile::new("g2".to_owned(), "/b".to_owned()),
            WatchFile::new("g3".to_owned(), "/c".to_owned()),
        ]
    );
    assert_eq!(
        settings_after_add(vec![], WatchFile::new("g".to_owned(), "/x".to_owned())),
        vec![WatchFile::new("g".to_owned(), "/x".to_owned())]
    );
}
