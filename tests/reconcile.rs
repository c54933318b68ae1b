use deezconfigs::compare::{diff_entry, diff_texts, status, status_line, State};
use deezconfigs::plan::{clean_plan, link_plan, rsync_plan, sync_plan, Alias, EntryError, Kind, Step};
use deezconfigs::reconcile::{plan, Action};
use deezconfigs::root::{config_root_candidates, determine_config_root, find_config_root_in_parents};
use deezconfigs::tree::{Node, Tree};
use deezconfigs::ui::{files_summary, hooks_summary};

const CONFIGS: &str = "/tmp/deez/configs";

fn add_parents(t: &mut Tree, p: &str) {
    let parts: Vec<&str> = p.split('/').collect();
    for i in 1..parts.len() {
        t.set(parts[..i].join("/"), Node::Dir);
    }
}

fn file(t: &mut Tree, p: &str, content: &str) {
    add_parents(t, p);
    t.set(p.to_string(), Node::File(content.as_bytes().to_vec()));
}

fn link(t: &mut Tree, p: &str, target: &str) {
    add_parents(t, p);
    t.set(p.to_string(), Node::Link(target.to_string()));
}

fn dir(t: &mut Tree, p: &str) {
    add_parents(t, p);
    t.set(p.to_string(), Node::Dir);
}

fn content(t: &Tree, p: &str) -> Option<String> {
    match t.get(&p.to_string()) {
        Some(Node::File(c)) => Some(String::from_utf8(c.clone()).unwrap()),
        _ => None,
    }
}

fn kind(t: &Tree, p: &str) -> Kind {
    t.kind(&p.to_string())
}

fn configs() -> Tree {
    let mut t = Tree::new();
    file(&mut t, ".deez", "");
    t
}

/// The root found from `cwd`, where `CONFIGS` is the one directory that
/// holds a `.deez` marker.
fn root_found_from(cwd: &str) -> String {
    let cwd = cwd.to_string();
    let candidates = config_root_candidates(&cwd);
    let marked: Vec<bool> = candidates.iter().map(|c| c == CONFIGS).collect();
    let found = find_config_root_in_parents(&candidates, &marked);
    determine_config_root(None, &cwd, cwd == CONFIGS, found, None)
}

fn text(t: &Tree, p: &str) -> Option<String> {
    content(t, p)
}

#[test]
fn clean_looks_for_root_in_parents() {
    let mut root = configs();
    file(&mut root, "foo/bar/baz.txt", "");
    let mut home = Tree::new();
    file(&mut home, "foo/bar/baz.txt", "");

    assert_eq!(root_found_from("/tmp/deez/configs/foo/bar"), CONFIGS);
    let entries = root.walk();
    let report = home.reconcile(Action::Clean, &root, &entries);

    assert_eq!(report.errors, 0);
    assert_eq!(kind(&home, "foo/bar/baz.txt"), Kind::Absent);
}

#[test]
fn clean_looks_for_root_in_direct_parent() {
    let mut root = configs();
    file(&mut root, "foo/bar.txt", "");
    let mut home = Tree::new();
    file(&mut home, "foo/bar.txt", "");

    assert_eq!(root_found_from("/tmp/deez/configs/foo"), CONFIGS);
    let entries = root.walk();
    let report = home.reconcile(Action::Clean, &root, &entries);

    assert_eq!(report.errors, 0);
    assert_eq!(kind(&home, "foo/bar.txt"), Kind::Absent);
}

fn diffs(root: &Tree, home: &Tree) -> Vec<(String, String)> {
    let mut out = Vec::new();
    for p in root.walk() {
        let before = text(root, &p).unwrap();
        let after = text(home, &p);
        if let Some(d) = diff_entry(&before, after.as_deref(), false) {
            out.push((p, d));
        }
    }
    out
}

#[test]
fn diff_looks_for_root_in_parents() {
    let mut root = configs();
    file(&mut root, "foo/bar/baz.txt", "");
    let home = Tree::new();

    assert_eq!(root_found_from("/tmp/deez/configs/foo/bar"), CONFIGS);
    let d = diffs(&root, &home);
    assert!(d.iter().any(|(p, _)| p == "foo/bar/baz.txt"));
}

#[test]
fn diff_looks_for_root_in_direct_parent() {
    let mut root = configs();
    file(&mut root, "foo/bar.txt", "");
    let home = Tree::new();

    assert_eq!(root_found_from("/tmp/deez/configs/foo"), CONFIGS);
    let d = diffs(&root, &home);
    assert!(d.iter().any(|(p, _)| p == "foo/bar.txt"));
}

#[test]
fn rsync_looks_for_root_in_parents() {
    let mut root = configs();
    file(&mut root, "foo/bar/baz.txt", "old");
    let mut home = Tree::new();
    file(&mut home, "foo/bar/baz.txt", "new");

    assert_eq!(root_found_from("/tmp/deez/configs/foo/bar"), CONFIGS);
    let entries = root.walk();
    let report = root.reconcile(Action::RSync, &home, &entries);

    assert_eq!(report.errors, 0);
    assert_eq!(content(&root, "foo/bar/baz.txt").unwrap(), "new");
}

#[test]
fn rsync_looks_for_root_in_direct_parent() {
    let mut root = configs();
    file(&mut root, "foo/bar.txt", "old");
    let mut home = Tree::new();
    file(&mut home, "foo/bar.txt", "new");

    assert_eq!(root_found_from("/tmp/deez/configs/foo"), CONFIGS);
    let entries = root.walk();
    let report = root.reconcile(Action::RSync, &home, &entries);

    assert_eq!(report.errors, 0);
    assert_eq!(content(&root, "foo/bar.txt").unwrap(), "new");
}

#[test]
fn sync_of_two_files_into_empty_home() {
    let mut root = configs();
    file(&mut root, ".gitconfig", "X");
    file(&mut root, ".config/nvim/init.lua", "");
    let mut home = Tree::new();

    let entries = root.walk();
    assert_eq!(entries, vec![".config/nvim/init.lua", ".gitconfig"]);
    let report = home.reconcile(Action::Sync, &root, &entries);

    assert_eq!(report.files, 2);
    assert_eq!(report.errors, 0);
    assert_eq!(content(&home, ".gitconfig").unwrap(), "X");
    assert_eq!(content(&home, ".config/nvim/init.lua").unwrap(), "");
    assert_eq!(kind(&home, ".config/nvim"), Kind::Dir);
    assert_eq!(kind(&home, ".deez"), Kind::Absent);
    assert_eq!(files_summary(Action::Sync, CONFIGS, report.files, report.errors), "Synced 2 files.");
}

#[test]
fn sync_twice_changes_nothing_more() {
    let mut root = configs();
    file(&mut root, "a/b.txt", "B");
    link(&mut root, "l.txt", "/elsewhere/target");
    let mut home = Tree::new();
    file(&mut home, "a/b.txt", "old");

    let entries = root.walk();
    let first = home.reconcile(Action::Sync, &root, &entries);
    assert_eq!(first.errors, 0);
    let second = home.reconcile(Action::Sync, &root, &entries);
    assert_eq!(second.errors, 0);
    assert_eq!(content(&home, "a/b.txt").unwrap(), "B");
    assert!(matches!(home.get(&"l.txt".to_string()), Some(Node::Link(t)) if t == "/elsewhere/target"));

    let statuses = status(&root, &home, &vec!["a/b.txt".to_string()]);
    assert_eq!(statuses[0].state, State::InSync);
}

#[test]
fn sync_rsync_sync_round_trip() {
    let mut root = configs();
    file(&mut root, "f", "A");
    let mut home = Tree::new();
    let entries = vec!["f".to_string()];

    assert_eq!(home.reconcile(Action::Sync, &root, &entries).errors, 0);
    assert_eq!(content(&home, "f").unwrap(), "A");
    file(&mut home, "f", "B");
    assert_eq!(root.reconcile(Action::RSync, &home, &entries).errors, 0);
    assert_eq!(content(&root, "f").unwrap(), "B");
    assert_eq!(home.reconcile(Action::Sync, &root, &entries).errors, 0);
    assert_eq!(content(&home, "f").unwrap(), "B");
}

#[test]
fn sync_replaces_home_link_without_touching_its_target() {
    let mut root = configs();
    file(&mut root, "link.txt", "new");
    let mut home = Tree::new();
    file(&mut home, "target.txt", "X");
    link(&mut home, "link.txt", "target.txt");

    let report = home.reconcile(Action::Sync, &root, &vec!["link.txt".to_string()]);
    assert_eq!(report.errors, 0);
    assert_eq!(kind(&home, "link.txt"), Kind::File);
    assert_eq!(content(&home, "link.txt").unwrap(), "new");
    assert_eq!(content(&home, "target.txt").unwrap(), "X");
}

#[test]
fn sync_and_clean_leave_non_empty_directory_alone() {
    let mut root = configs();
    file(&mut root, "foo.txt", "");
    let mut home = Tree::new();
    file(&mut home, "foo.txt/baz.log", "keep");
    let entries = vec!["foo.txt".to_string()];

    let report = home.reconcile(Action::Sync, &root, &entries);
    assert_eq!(report.errors, 1);
    assert_eq!(kind(&home, "foo.txt"), Kind::Dir);
    assert_eq!(content(&home, "foo.txt/baz.log").unwrap(), "keep");

    let report = home.reconcile(Action::Clean, &root, &entries);
    assert_eq!(report.errors, 1);
    assert_eq!(kind(&home, "foo.txt"), Kind::Dir);
    assert_eq!(content(&home, "foo.txt/baz.log").unwrap(), "keep");
    assert_eq!(files_summary(Action::Clean, CONFIGS, report.files, report.errors), "Removed 0 files, 1 error.");
}

#[test]
fn clean_removes_empty_directory_in_the_way() {
    let mut root = configs();
    file(&mut root, "foo.txt", "");
    let mut home = Tree::new();
    dir(&mut home, "foo.txt");

    let report = home.reconcile(Action::Clean, &root, &vec!["foo.txt".to_string()]);
    assert_eq!(report.errors, 0);
    assert_eq!(kind(&home, "foo.txt"), Kind::Absent);
}

#[test]
fn clean_prunes_emptied_directories_up_to_a_non_empty_one() {
    let mut root = configs();
    file(&mut root, "a/b/c/d.txt", "");
    let mut home = Tree::new();
    file(&mut home, "a/b/c/d.txt", "");
    file(&mut home, "a/keep.txt", "");

    let report = home.reconcile(Action::Clean, &root, &vec!["a/b/c/d.txt".to_string()]);
    assert_eq!(report.errors, 0);
    assert_eq!(kind(&home, "a/b/c/d.txt"), Kind::Absent);
    assert_eq!(kind(&home, "a/b/c"), Kind::Absent);
    assert_eq!(kind(&home, "a/b"), Kind::Absent);
    assert_eq!(kind(&home, "a"), Kind::Dir);
    assert_eq!(kind(&home, "a/keep.txt"), Kind::File);
}

#[test]
fn clean_prunes_every_emptied_directory() {
    let mut root = configs();
    file(&mut root, "a/b/c.txt", "");
    let mut home = Tree::new();
    file(&mut home, "a/b/c.txt", "");

    home.reconcile(Action::Clean, &root, &vec!["a/b/c.txt".to_string()]);
    assert_eq!(kind(&home, "a/b"), Kind::Absent);
    assert_eq!(kind(&home, "a"), Kind::Absent);
}

#[test]
fn link_makes_links_to_the_root_copies() {
    let mut root = configs();
    file(&mut root, ".gitconfig", "X");
    let mut home = Tree::new();
    file(&mut home, ".gitconfig", "old");

    let report = home.reconcile(Action::Link, &root, &root.walk());
    assert_eq!(report.errors, 0);
    assert_eq!(kind(&home, ".gitconfig"), Kind::Symlink);
    assert_eq!(files_summary(Action::Link, CONFIGS, report.files, report.errors), "Linked 1 file.");
}

#[test]
fn rsync_leaves_links_to_the_root_alone() {
    let mut root = configs();
    file(&mut root, ".gitconfig", "X");
    let mut home = Tree::new();
    home.reconcile(Action::Link, &root, &root.walk());

    let report = root.reconcile(Action::RSync, &home, &vec![".gitconfig".to_string()]);
    assert_eq!(report.errors, 0);
    assert_eq!(content(&root, ".gitconfig").unwrap(), "X");
}

#[test]
fn walking_skips_markers_ignore_files_hooks_and_git() {
    let mut root = configs();
    file(&mut root, ".ignore", "foo/*");
    file(&mut root, ".gitignore", "");
    file(&mut root, "post-sync.001.sh", "");
    file(&mut root, "pre-clean", "");
    file(&mut root, ".git/config", "");
    file(&mut root, "sub/.deez", "");
    file(&mut root, "sub/.ignore", "");
    file(&mut root, "sub/post-sync.sh", "");
    file(&mut root, "post-syncing.sh", "");
    assert_eq!(root.walk(), vec!["post-syncing.sh", "sub/.ignore", "sub/post-sync.sh"]);
}

#[test]
fn plans_follow_the_destination() {
    assert_eq!(sync_plan(false, Kind::Absent), vec![Step::CreateParents, Step::CopyFile]);
    assert_eq!(
        sync_plan(false, Kind::Symlink),
        vec![Step::CreateParents, Step::RemoveFile, Step::CopyFile]
    );
    assert_eq!(
        sync_plan(true, Kind::Dir),
        vec![Step::RemoveDir, Step::CreateParents, Step::MirrorLink]
    );
    assert_eq!(
        link_plan(Kind::File),
        vec![Step::CreateParents, Step::RemoveFile, Step::LinkToSource]
    );
    assert_eq!(clean_plan(Kind::Absent), vec![]);
    assert_eq!(clean_plan(Kind::Symlink), vec![Step::RemoveFile, Step::PruneParents]);
    assert_eq!(rsync_plan(Kind::Symlink, Kind::File, Alias::ToSource), Ok(vec![]));
    assert_eq!(rsync_plan(Kind::Symlink, Kind::File, Alias::Unresolved), Err(EntryError::UnresolvedLink));
    assert_eq!(
        rsync_plan(Kind::Symlink, Kind::Symlink, Alias::Elsewhere),
        Ok(vec![Step::RemoveFile, Step::CopyFile])
    );
    assert_eq!(rsync_plan(Kind::Absent, Kind::File, Alias::NotALink), Ok(vec![]));
    assert_eq!(
        plan(Action::Clean, Kind::File, Kind::Dir, Alias::NotALink),
        Ok(vec![Step::RemoveDir, Step::PruneParents])
    );
    assert_eq!(
        plan(Action::RSync, Kind::File, Kind::Symlink, Alias::NotALink),
        Ok(vec![Step::RemoveFile, Step::CopyFile])
    );
}

#[test]
fn status_reports_each_state() {
    let mut root = configs();
    file(&mut root, "same", "x");
    file(&mut root, "changed", "x");
    file(&mut root, "absent", "x");
    file(&mut root, "target", "x");
    let mut home = Tree::new();
    file(&mut home, "same", "x");
    file(&mut home, "changed", "y");
    file(&mut home, "target", "x");
    link(&mut home, "linked", "target");
    file(&mut root, "linked", "x");

    let entries: Vec<String> = ["absent", "changed", "linked", "same"].iter().map(|s| s.to_string()).collect();
    let st = status(&root, &home, &entries);
    assert_eq!(st[0].state, State::Missing);
    assert_eq!(st[1].state, State::Modified);
    assert_eq!(st[2].state, State::InSync);
    assert!(st[2].is_symlinked);
    assert_eq!(st[3].state, State::InSync);
    assert!(!st[3].is_symlinked);
    assert_eq!(status_line(&st), "2 in sync, 1 modified, 1 missing.");
}

#[test]
fn diff_of_changed_line() {
    assert_eq!(
        diff_texts("this is bar/baz", "not equal", false).unwrap(),
        "@@ -1,1 +1,1 @@\n-this is bar/baz\n+not equal\n"
    );
    assert_eq!(
        diff_texts("this is bar/baz", "not equal", true).unwrap(),
        "@@ -1,1 +1,1 @@\n-not equal\n+this is bar/baz\n"
    );
    assert_eq!(diff_texts("same\n", "same\n", false), None);
    assert_eq!(
        diff_entry("x", None, false).unwrap(),
        "! File does not exist in Home.\n! Skipping..."
    );
}

#[test]
fn summaries() {
    assert_eq!(
        files_summary(Action::RSync, "/c", 0, 0),
        "No config files found in '/c'.\nSynced 0 files."
    );
    assert_eq!(files_summary(Action::Sync, "/c", 1, 2), "Synced 1 file, 2 errors.");
    assert_eq!(hooks_summary(0), None);
    assert_eq!(hooks_summary(1).unwrap(), "Ran 1 hook.");
    assert_eq!(hooks_summary(12).unwrap(), "Ran 12 hooks.");
}

#[test]
fn ignore_files_keep_entries_out_of_every_operation() {
    let mut root = configs();
    file(&mut root, "foo/a.txt", "a");
    file(&mut root, "bar.txt", "b");
    file(&mut root, ".ignore", "foo/*");
    let mut home = Tree::new();

    let entries = root.walk();
    assert_eq!(entries, vec!["bar.txt"]);
    let report = home.reconcile(Action::Sync, &root, &entries);
    assert_eq!(report.files, 1);
    assert_eq!(kind(&home, "foo/a.txt"), Kind::Absent);
    assert_eq!(kind(&home, "foo"), Kind::Absent);
    let statuses = status(&root, &home, &entries);
    assert!(statuses.iter().all(|s| s.file != "foo/a.txt"));
    assert!(diffs(&root, &home).is_empty());
}

#[test]
fn ignore_rules_negation_nesting_and_precedence() {
    let mut root = configs();
    file(&mut root, ".gitignore", "# logs\r\n*.log\r\n!keep.log\r\nshadow.txt\n");
    file(&mut root, ".ignore", "!shadow.txt");
    file(&mut root, "a.log", "");
    file(&mut root, "keep.log", "");
    file(&mut root, "shadow.txt", "");
    file(&mut root, "x.txt", "");
    file(&mut root, "sub/.ignore", "x.txt");
    file(&mut root, "sub/x.txt", "");
    file(&mut root, "sub/y.txt", "");
    file(&mut root, "build/out.txt", "");
    file(&mut root, "sub/.gitignore", "/build/");
    file(&mut root, "sub/build/z.txt", "");
    assert_eq!(
        root.walk(),
        vec!["build/out.txt", "keep.log", "shadow.txt", "sub/.gitignore", "sub/.ignore", "sub/y.txt", "x.txt"]
    );
}
