use deezconfigs::cli::{Args, Command};

#[test]
fn command_sync_regular() {
    let args = Args::build_from_args(&["sync"]).unwrap();
    assert!(args.command.is_some_and(|c| c == Command::Sync));
}

#[test]
fn command_sync_shortcut() {
    let args = Args::build_from_args(&["s"]).unwrap();
    assert!(args.command.is_some_and(|c| c == Command::Sync));
}

#[test]
fn second_command_does_not_override_sync() {
    let args = Args::build_from_args(&["sync", "rsync"]).unwrap();
    assert!(args.command.is_some_and(|c| c == Command::Sync));
}

#[test]
fn command_rsync_regular() {
    let args = Args::build_from_args(&["rsync"]).unwrap();
    assert!(args.command.is_some_and(|c| c == Command::RSync));
}

#[test]
fn command_rsync_shortcut() {
    let args = Args::build_from_args(&["rs"]).unwrap();
    assert!(args.command.is_some_and(|c| c == Command::RSync));
}

#[test]
fn second_command_does_not_override_rsync() {
    let args = Args::build_from_args(&["rsync", "sync"]).unwrap();
    assert!(args.command.is_some_and(|c| c == Command::RSync));
}

#[test]
fn command_link_regular() {
    let args = Args::build_from_args(&["link"]).unwrap();
    assert!(args.command.is_some_and(|c| c == Command::Link));
}

#[test]
fn command_link_shortcut() {
    let args = Args::build_from_args(&["l"]).unwrap();
    assert!(args.command.is_some_and(|c| c == Command::Link));
}

#[test]
fn second_command_does_not_override_link() {
    let args = Args::build_from_args(&["link", "sync"]).unwrap();
    assert!(args.command.is_some_and(|c| c == Command::Link));
}

#[test]
fn command_status_regular() {
    let args = Args::build_from_args(&["status"]).unwrap();
    assert!(args.command.is_some_and(|c| c == Command::Status));
}

#[test]
fn command_status_shortcut() {
    let args = Args::build_from_args(&["st"]).unwrap();
    assert!(args.command.is_some_and(|c| c == Command::Status));
}

#[test]
fn second_command_does_not_override_status() {
    let args = Args::build_from_args(&["status", "sync"]).unwrap();
    assert!(args.command.is_some_and(|c| c == Command::Status));
}

#[test]
fn command_diff_regular() {
    let args = Args::build_from_args(&["diff"]).unwrap();
    assert!(args.command.is_some_and(|c| c == Command::Diff));
}

#[test]
fn command_diff_shortcut() {
    let args = Args::build_from_args(&["df"]).unwrap();
    assert!(args.command.is_some_and(|c| c == Command::Diff));
}

#[test]
fn second_command_does_not_override_diff() {
    let args = Args::build_from_args(&["diff", "sync"]).unwrap();
    assert!(args.command.is_some_and(|c| c == Command::Diff));
}

#[test]
fn command_clean_regular() {
    let args = Args::build_from_args(&["clean"]).unwrap();
    assert!(args.command.is_some_and(|c| c == Command::Clean));
}

#[test]
fn command_clean_shortcut() {
    let args = Args::build_from_args(&["c"]).unwrap();
    assert!(args.command.is_some_and(|c| c == Command::Clean));
}

#[test]
fn second_command_does_not_override_clean() {
    let args = Args::build_from_args(&["clean", "sync"]).unwrap();
    assert!(args.command.is_some_and(|c| c == Command::Clean));
}

#[test]
fn command_nuts_regular() {
    let args = Args::build_from_args(&["nuts"]).unwrap();
    assert!(args.command.is_some_and(|c| c == Command::Nuts));
}

#[test]
fn second_command_does_not_override_nuts() {
    let args = Args::build_from_args(&["nuts", "sync"]).unwrap();
    assert!(args.command.is_some_and(|c| c == Command::Nuts));
}

#[test]
fn command_unknown_is_error() {
    let err = Args::build_from_args(&["unknown"]).unwrap_err();
    assert!(err.contains("'unknown'"));
}

#[test]
fn option_short_help_regular() {
    let args = Args::build_from_args(&["-h"]).unwrap();
    assert!(args.short_help);
    assert!(!args.long_help);
}

#[test]
fn option_long_help_regular() {
    let args = Args::build_from_args(&["--help"]).unwrap();
    assert!(!args.short_help);
    assert!(args.long_help);
}

#[test]
fn option_short_version_regular() {
    let args = Args::build_from_args(&["-V"]).unwrap();
    assert!(args.version);
}

#[test]
fn option_long_version_regular() {
    let args = Args::build_from_args(&["--version"]).unwrap();
    assert!(args.version);
}

#[test]
fn option_short_verbose_regular() {
    let args = Args::build_from_args(&["-v"]).unwrap();
    assert!(args.verbose);
}

#[test]
fn option_long_verbose_regular() {
    let args = Args::build_from_args(&["--verbose"]).unwrap();
    assert!(args.verbose);
}

#[test]
fn double_dash_regular() {
    let args = Args::build_from_args(&["sync", "--", "~/configs"]).unwrap();
    assert!(args.command.is_some_and(|c| c == Command::Sync));
    assert!(args.root.is_some_and(|r| r == "~/configs"));
}

#[test]
fn double_dash_not_followed_by_anything_is_noop() {
    let args = Args::build_from_args(&["sync", "--"]).unwrap();
    assert!(args.command.is_some_and(|c| c == Command::Sync));
    assert!(args.root.is_none());
}

#[test]
fn double_dash_correctly_interprets_what_comes_next_as_root() {
    let args = Args::build_from_args(&["sync", "--", "--verbose"]).unwrap();
    assert!(args.command.is_some_and(|c| c == Command::Sync));
    assert!(args.root.is_some_and(|r| r == "--verbose"));
    assert!(!args.verbose);
}

#[test]
fn double_dash_not_preceded_by_command_is_error() {
    let err = Args::build_from_args(&["--", "~/configs"]).unwrap_err();
    assert!(err.contains("'--'"));
}

#[test]
fn double_dash_with_previous_root_is_error() {
    let err =
        Args::build_from_args(&["sync", "~/other-root", "--", "~/configs"]).unwrap_err();
    assert!(err.contains("'--'"));
}

#[test]
fn root_regular() {
    let args = Args::build_from_args(&["sync", "~/configs"]).unwrap();
    assert!(args.command.is_some_and(|c| c == Command::Sync));
    assert!(args.root.is_some_and(|r| r == "~/configs"));
}

#[test]
fn root_implicit_is_noop() {
    let args = Args::build_from_args(&["sync"]).unwrap();
    assert!(args.command.is_some_and(|c| c == Command::Sync));
    assert!(args.root.is_none());
}

#[test]
fn root_not_preceded_by_command_is_error() {
    let err = Args::build_from_args(&["~/configs"]).unwrap_err();
    assert!(err.contains("'~/configs'"));
}

#[test]
fn root_with_previous_root_is_error() {
    let err = Args::build_from_args(&["sync", "~/other-root", "~/configs"]).unwrap_err();
    assert!(err.contains("'~/configs'"));
}
