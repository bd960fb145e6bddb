use soma::error::unwrap_and_error;
use soma::frontend::FrontendService;
use soma::pagination::next_page_token;
use soma::paths::{join_path, resolve_location};
use soma::runtime::Typescript;
use soma::template::{archive_entry_target, repo_name, root_prefix, zip_url};
use soma::text::{decimal_chars, parse_comma_list, split_chars, trim_chars};

#[test]
fn joining_paths() {
    assert_eq!(join_path("/a", "b"), "/a/b");
    assert_eq!(join_path("/a/", "b"), "/a/b");
    assert_eq!(join_path("", "b"), "b");
    assert_eq!(join_path("/a", "/etc"), "/etc");
    assert_eq!(join_path("/a", ""), "/a/");
}

#[test]
fn resolving_locations() {
    assert_eq!(resolve_location("/abs/key", "/cwd"), "/abs/key");
    assert_eq!(resolve_location("rel/key", "/cwd"), "/cwd/rel/key");
}

#[test]
fn template_download() {
    let repo = repo_name("js-basic");
    assert_eq!(repo, "js-basic-template");
    assert_eq!(zip_url(&repo), "https://github.com/trysoma/js-basic-template/archive/refs/heads/main.zip");
    let prefix = root_prefix(&repo);
    assert_eq!(prefix, "js-basic-template-main/");
    assert_eq!(
        archive_entry_target("js-basic-template-main/src/index.ts", &prefix, "/out"),
        Some("/out/src/index.ts".to_string())
    );
    assert_eq!(archive_entry_target("js-basic-template-main/", &prefix, "/out"), None);
    assert_eq!(archive_entry_target("other/file", &prefix, "/out"), None);
}

#[test]
fn page_tokens() {
    assert_eq!(next_page_token(Some(Some("t".to_string()))), Some("t".to_string()));
    assert_eq!(next_page_token(Some(Some(String::new()))), None);
    assert_eq!(next_page_token(Some(None)), None);
    assert_eq!(next_page_token(None), None);
}

#[test]
fn unwrap_gives_the_value() {
    assert_eq!(unwrap_and_error::<u8>(Ok(3)), 3);
}

#[test]
fn constructors() {
    let _ = FrontendService::new();
    let _ = Typescript::new();
    assert!(soma::frontend::runtime_config().is_ok());
    assert!(soma::task::runtime_config().is_ok());
}

#[test]
fn text_helpers() {
    let cs: Vec<char> = "  a b \n".chars().collect();
    assert_eq!(trim_chars(&cs), vec!['a', ' ', 'b']);
    let parts = split_chars(&['a', ':', ':', 'b'], ':');
    assert_eq!(parts, vec![vec!['a'], vec![], vec!['b']]);
    assert_eq!(parse_comma_list(" x , ,y"), vec!["x".to_string(), "y".to_string()]);
    assert_eq!(decimal_chars(0), vec!['0']);
    assert_eq!(decimal_chars(9070).into_iter().collect::<String>(), "9070");
}
