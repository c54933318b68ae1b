use deezconfigs::hooks::{hook_environment, Hooks};
use deezconfigs::walk::{does_dir_entry_match, does_file_entry_match, file_prefix, is_hook, strip_root};
use deezconfigs::compare::color_diff_line;
use deezconfigs::text::to_decimal;

fn names(v: &[&str]) -> Vec<String> {
    v.iter().map(|s| s.to_string()).collect()
}

#[test]
fn hooks_are_grouped_and_sorted_by_name() {
    let hooks = Hooks::from_root_files(&names(&[
        "post-sync.002.sh",
        ".gitconfig",
        "post-sync.001.sh",
        "pre-sync",
        "pre-link.sh",
        "post-clean.py",
        "pre-syncing",
    ]));
    assert_eq!(*hooks.pre_sync(), names(&["pre-sync"]));
    assert_eq!(*hooks.post_sync(), names(&["post-sync.001.sh", "post-sync.002.sh"]));
    assert_eq!(*hooks.pre_link(), names(&["pre-link.sh"]));
    assert!(hooks.pre_rsync().is_empty());
    assert!(hooks.post_status().is_empty());
    assert_eq!(
        hooks.list(),
        names(&["pre-sync", "post-sync.001.sh", "post-sync.002.sh", "pre-link.sh", "post-clean.py"])
    );
}

#[test]
fn hook_environment_holds_root_home_os_and_verbosity() {
    let env = hook_environment(&"/r".to_string(), &"/h".to_string(), true, &"linux".to_string());
    assert_eq!(env.len(), 4);
    assert_eq!(env[0], ("DEEZ_ROOT".to_string(), "/r".to_string()));
    assert_eq!(env[1], ("DEEZ_HOME".to_string(), "/h".to_string()));
    assert_eq!(env[2], ("DEEZ_VERBOSE".to_string(), "true".to_string()));
    assert_eq!(env[3], ("DEEZ_OS".to_string(), "linux".to_string()));
    assert_eq!(hook_environment(&"/r".to_string(), &"/h".to_string(), false, &"linux".to_string()).len(), 3);
}

#[test]
fn file_prefix_drops_every_extension() {
    assert_eq!(file_prefix("dir/post-sync.001.sh"), "post-sync");
    assert_eq!(file_prefix(".gitconfig"), ".gitconfig");
    assert_eq!(file_prefix(".config.bak"), ".config");
    assert_eq!(file_prefix(".."), "..");
    assert!(is_hook("pre-clean.sh"));
    assert!(!is_hook("pre-cleaning.sh"));
}

#[test]
fn entry_filters() {
    assert!(!does_file_entry_match(".ignore"));
    assert!(!does_file_entry_match(".gitignore"));
    assert!(!does_file_entry_match("pre-diff.sh"));
    assert!(!does_file_entry_match("a/b/.deez"));
    assert!(does_file_entry_match("a/.ignore"));
    assert!(does_file_entry_match("a/pre-diff.sh"));
    assert!(!does_dir_entry_match(".git"));
    assert!(does_dir_entry_match("a/.git"));
}

#[test]
fn strip_root_keeps_the_relative_part() {
    assert_eq!(strip_root("foo/configs", "foo/configs/.config/nvim/init.lua").unwrap(), ".config/nvim/init.lua");
    assert_eq!(strip_root("foo/configs", "foo/configs").unwrap(), "");
    assert_eq!(strip_root("foo/configs", "foo/configsx/a"), None);
    assert_eq!(strip_root("foo/configs", "bar/a"), None);
}

#[test]
fn diff_lines_are_colored_by_their_first_character() {
    assert_eq!(color_diff_line("+a"), "\x1b[0;92m+a\x1b[0m");
    assert_eq!(color_diff_line("-a"), "\x1b[0;91m-a\x1b[0m");
    assert_eq!(color_diff_line("! note"), "\x1b[0;91m! note\x1b[0m");
    assert_eq!(color_diff_line("@@ -1 +1 @@"), "\x1b[0;96m@@ -1 +1 @@\x1b[0m");
    assert_eq!(color_diff_line(" a"), " a");
    assert_eq!(color_diff_line(""), "");
}

#[test]
fn decimal_numbers() {
    assert_eq!(to_decimal(0), "0");
    assert_eq!(to_decimal(7), "7");
    assert_eq!(to_decimal(1204), "1204");
    assert_eq!(to_decimal(usize::MAX), usize::MAX.to_string());
}
