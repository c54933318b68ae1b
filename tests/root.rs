use deezconfigs::root::{
    config_root_candidates, determine_config_root, extract_sub_root, find_config_root_in_parents, get_config_root_from_args,
    is_git_remote_uri, remote_address,
};

fn split(uri: &str) -> (String, Option<String>) {
    extract_sub_root(uri)
}

fn expected(uri: &str, sub_root: Option<&str>) -> (String, Option<String>) {
    (uri.to_string(), sub_root.map(|s| s.to_string()))
}

#[test]
fn test_is_git_remote_uri() {
    fn is_git_uri(uri: &'static str) -> bool {
        is_git_remote_uri(Some(&uri.to_string()))
    }
    assert!(is_git_uri("git:../configs"));
    assert!(is_git_uri("git:~/Developer/configs"));
    assert!(is_git_uri("ssh://misc/home/misc/configs"));
    assert!(is_git_uri("git@github.com:qrichert/configs.git"));
    assert!(is_git_uri("https://github.com/qrichert/configs.git"));
    assert!(is_git_uri("http://github.com/qrichert/configs.git"));
    assert!(is_git_uri("gh:qrichert/configs.git"));
}

#[test]
fn test_extract_sub_root() {
    assert_eq!(
        split("../configs[foo/bar]"),
        expected("../configs", Some("foo/bar"))
    );
    assert_eq!(
        split("~/Developer/configs[/foo/bar]"),
        expected("~/Developer/configs", Some("foo/bar"))
    );
    assert_eq!(
        split("ssh://misc/home/[misc]/configs[ /foo/bar ]"),
        expected("ssh://misc/home/[misc]/configs", Some("foo/bar"))
    );
    assert_eq!(
        split("git@github.com:qrichert/configs.git"),
        expected("git@github.com:qrichert/configs.git", None)
    );
    assert_eq!(
        split("https://github.com/qrichert/configs.git[]"),
        expected("https://github.com/qrichert/configs.git", None)
    );
    assert_eq!(
        split("http://github.com/qrichert/configs.git[ ]"),
        expected("http://github.com/qrichert/configs.git", None)
    );
    assert_eq!(
        split("qrichert/configs.git[ / ]"),
        expected("qrichert/configs.git", None)
    );
}

#[test]
fn local_roots_are_not_remote() {
    assert!(!is_git_remote_uri(Some(&"~/configs".to_string())));
    assert!(!is_git_remote_uri(Some(&"".to_string())));
    assert!(!is_git_remote_uri(None));
}

#[test]
fn remote_address_drops_git_label_and_expands_gh() {
    assert_eq!(remote_address("git:../configs"), "../configs");
    assert_eq!(remote_address("gh:qrichert/configs"), "git@github.com:qrichert/configs");
    assert_eq!(remote_address("https://example.com/c.git"), "https://example.com/c.git");
}

#[test]
fn sub_root_without_closing_bracket_is_part_of_uri() {
    assert_eq!(split("configs[foo"), expected("configs[foo", None));
    assert_eq!(split("configs]"), expected("configs]", None));
}

#[test]
fn empty_root_argument_is_no_root() {
    assert_eq!(get_config_root_from_args(Some(&String::new())), None);
    assert_eq!(get_config_root_from_args(None), None);
    assert_eq!(
        get_config_root_from_args(Some(&"~/configs".to_string())),
        Some("~/configs".to_string())
    );
}

#[test]
fn parents_are_listed_nearest_first() {
    assert_eq!(
        config_root_candidates("/home/deez/configs/foo"),
        vec!["/home/deez/configs", "/home/deez", "/home", "/"]
    );
    assert!(config_root_candidates("/").is_empty());
}

#[test]
fn parents_are_bounded() {
    let deep = "/d".repeat(30);
    let parents = config_root_candidates(&deep);
    assert_eq!(parents.len(), 21);
    assert_eq!(parents[0], "/d".repeat(29));
}

#[test]
fn root_choice_follows_precedence() {
    let cwd = "/work".to_string();
    let given = "/given".to_string();
    let parent = "/".to_string();
    let env = "/env".to_string();
    let empty = String::new();
    assert_eq!(determine_config_root(Some(&given), &cwd, true, Some(&parent), Some(&env)), "/given");
    assert_eq!(determine_config_root(Some(&empty), &cwd, true, None, None), "/work");
    assert_eq!(determine_config_root(None, &cwd, false, Some(&parent), Some(&env)), "/");
    assert_eq!(determine_config_root(None, &cwd, false, None, Some(&env)), "/env");
    assert_eq!(determine_config_root(None, &cwd, false, None, Some(&empty)), "/work");
    assert_eq!(determine_config_root(None, &cwd, false, None, None), "/work");
}

#[test]
fn nearest_marked_parent_is_the_root() {
    let candidates: Vec<String> = vec!["/a/b".to_string(), "/a".to_string(), "/".to_string()];
    assert_eq!(find_config_root_in_parents(&candidates, &vec![false, true, true]), Some(&"/a".to_string()));
    assert_eq!(find_config_root_in_parents(&candidates, &vec![true, false, true]), Some(&"/a/b".to_string()));
    assert_eq!(find_config_root_in_parents(&candidates, &vec![false, false, false]), None);
}
