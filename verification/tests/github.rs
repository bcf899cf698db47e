use sync_memo::github::{
    authorization_value, create_gist_request, get_gist_request, gist_url, gists_url,
    modify_gist_request, path_to_file_name, Content, CreateGist, GistFile, GistFiles,
    GistResponse, HttpMethod,
};

#[test]
fn it_should_convert_path_to_file_name() {
    assert_eq!(path_to_file_name("/foo/bar/buzz.text".to_owned()),
               "buzz.text".to_owned());
}

#[test]
fn file_name_of_paths_without_a_final_component_is_empty() {
    assert_eq!(path_to_file_name("/".to_owned()), "");
    assert_eq!(path_to_file_name("".to_owned()), "");
    assert_eq!(path_to_file_name("notes/..".to_owned()), "");
}

#[test]
fn file_name_ignores_trailing_separators() {
    assert_eq!(path_to_file_name("/usr/bin/".to_owned()), "bin");
    assert_eq!(path_to_file_name("memo.md".to_owned()), "memo.md");
}

#[test]
fn gist_urls_are_under_the_api_root() {
    assert_eq!(gists_url(), "https://api.github.com/gists");
    assert_eq!(gist_url("aa5a315d61ae9438b18d"), "https://api.github.com/gists/aa5a315d61ae9438b18d");
}

#[test]
fn authorization_is_a_token_header() {
    assert_eq!(authorization_value("abc123"), "token abc123");
}

#[test]
fn create_request_posts_a_private_gist_named_after_the_file() {
    let r = create_gist_request("/home/me/memo/todo.md".to_owned(), "buy milk".to_owned());
    assert_eq!(r.method, HttpMethod::Post);
    assert_eq!(r.url, "https://api.github.com/gists");
    assert_eq!(
        r.body,
        Some(CreateGist {
            description: "".to_owned(),
            public: false,
            files: vec![("todo.md".to_owned(), Content { content: "buy milk".to_owned() })],
        })
    );
}

#[test]
fn modify_request_patches_the_gist() {
    let r = modify_gist_request("42", "/tmp/a/b.txt".to_owned(), "new".to_owned());
    assert_eq!(r.method, HttpMethod::Patch);
    assert_eq!(r.url, "https://api.github.com/gists/42");
    assert_eq!(
        r.body,
        Some(CreateGist {
            description: "this is update test".to_owned(),
            public: false,
            files: vec![("b.txt".to_owned(), Content { content: "new".to_owned() })],
        })
    );
}

#[test]
fn get_request_has_no_body() {
    let r = get_gist_request("42");
    assert_eq!(r.method, HttpMethod::Get);
    assert_eq!(r.url, "https://api.github.com/gists/42");
    assert_eq!(r.body, None);
}

fn file(content: &str) -> GistFile {
    GistFile::new(content.len() as i32, "Markdown".to_owned(), content.to_owned())
}

#[test]
fn inserting_a_new_name_appends_it() {
    let mut g = GistFiles::new("id1".to_owned());
    g.insert_file("a.md".to_owned(), file("x"));
    g.insert_file("b.md".to_owned(), file("y"));
    assert_eq!(g.id(), "id1");
    assert_eq!(g.file_names(), vec!["a.md".to_owned(), "b.md".to_owned()]);
}

#[test]
fn inserting_an_existing_name_replaces_it_in_place() {
    let mut g = GistFiles::new("id1".to_owned());
    g.insert_file("a.md".to_owned(), file("x"));
    g.insert_file("b.md".to_owned(), file("y"));
    g.insert_file("a.md".to_owned(), file("z"));
    assert_eq!(g.file_names(), vec!["a.md".to_owned(), "b.md".to_owned()]);
}

#[test]
fn describe_lists_id_and_file_names() {
    let mut g = GistFiles::new("abc".to_owned());
    g.insert_file("a.md".to_owned(), file("x"));
    g.insert_file("b.md".to_owned(), file("y"));
    assert_eq!(GistResponse::Success(g).describe(), "gist id: [abc] file name: [a.md/b.md]");
}

#[test]
fn describe_of_an_empty_gist() {
    let g = GistFiles::new("abc".to_owned());
    assert_eq!(GistResponse::Success(g).describe(), "gist id: [abc] file name: []");
}

#[test]
fn describe_of_a_missing_gist_is_the_message() {
    let r = GistResponse::NotFound { message: "Not Found".to_owned() };
    assert_eq!(r.describe(), "Not Found");
}

#[test]
fn file_name_skips_empty_and_dot_segments() {
    assert_eq!(path_to_file_name("a//b".to_owned()), "b");
    assert_eq!(path_to_file_name("./a".to_owned()), "a");
    assert_eq!(path_to_file_name("foo.txt/.".to_owned()), "foo.txt");
    assert_eq!(path_to_file_name("foo.txt/.//".to_owned()), "foo.txt");
    assert_eq!(path_to_file_name("./.".to_owned()), "");
    assert_eq!(path_to_file_name("a/../b".to_owned()), "b");
    assert_eq!(path_to_file_name("...".to_owned()), "...");
}

#[test]
fn file_name_is_idempotent() {
    for p in ["/foo/bar/buzz.text", "/", "a/..", "x/./", "notes"] {
        let once = path_to_file_name(p.to_owned());
        assert_eq!(path_to_file_name(once.clone()), once);
    }
}

#[test]
fn directory_part_never_changes_the_file_name() {
    for d in ["", "/", "..", "a/b", "./x/"] {
        assert_eq!(path_to_file_name(format!("{}/{}", d, "memo.md")), "memo.md");
    }
}
