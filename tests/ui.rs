use deezconfigs::ui::Color;

#[test]
fn ui_color_in_sync_is_green() {
    assert_eq!(
        Color::in_sync("this is in sync"),
        "\x1b[0;92mthis is in sync\x1b[0m"
    );
}

#[test]
fn ui_color_modified_is_yellow() {
    assert_eq!(
        Color::modified("this is marked as modified"),
        "\x1b[0;93mthis is marked as modified\x1b[0m"
    );
}

#[test]
fn ui_color_missing_is_red() {
    assert_eq!(
        Color::missing("this is marked as missing"),
        "\x1b[0;91mthis is marked as missing\x1b[0m"
    );
}

#[test]
fn ui_color_symlink_is_blue() {
    assert_eq!(
        Color::missing("this is a symlink"),
        "\x1b[0;91mthis is a symlink\x1b[0m"
    );
}

#[test]
fn color_attenuate_is_grey() {
    assert_eq!(
        Color::attenuate("this is attenuated"),
        "\x1b[0;90mthis is attenuated\x1b[0m"
    );
}

#[test]
fn color_title_is_bold_underlined() {
    assert_eq!(
        Color::title("this is bold, and underlined"),
        "\x1b[1;4mthis is bold, and underlined\x1b[0m"
    );
}

#[test]
fn ui_color_none_has_no_effect() {
    assert_eq!(Color::none("same as input"), "same as input");
}

#[test]
fn color_error_is_red() {
    assert_eq!(
        Color::error("this is an error"),
        "\x1b[0;91mthis is an error\x1b[0m"
    );
}

#[test]
fn color_warning_is_yellow() {
    assert_eq!(
        Color::warning("this is a warning"),
        "\x1b[0;93mthis is a warning\x1b[0m"
    );
}

#[test]
fn color_color_in_sync_is_green() {
    assert_eq!(
        Color::in_sync("this is in sync"),
        "\x1b[0;92mthis is in sync\x1b[0m"
    );
}

#[test]
fn color_color_modified_is_yellow() {
    assert_eq!(
        Color::modified("this is marked as modified"),
        "\x1b[0;93mthis is marked as modified\x1b[0m"
    );
}

#[test]
fn color_color_missing_is_red() {
    assert_eq!(
        Color::missing("this is marked as missing"),
        "\x1b[0;91mthis is marked as missing\x1b[0m"
    );
}

#[test]
fn color_color_symlink_is_blue() {
    assert_eq!(
        Color::missing("this is a symlink"),
        "\x1b[0;91mthis is a symlink\x1b[0m"
    );
}

#[test]
fn color_file_name_is_bold_purple() {
    assert_eq!(
        Color::file_name("this is bold, and purple"),
        "\x1b[1;95mthis is bold, and purple\x1b[0m"
    );
}

#[test]
fn color_line_range_is_cyan() {
    assert_eq!(
        Color::line_range("this is cyan"),
        "\x1b[0;96mthis is cyan\x1b[0m"
    );
}

#[test]
fn color_added_is_green() {
    assert_eq!(
        Color::added("+this is has been added"),
        "\x1b[0;92m+this is has been added\x1b[0m"
    );
}

#[test]
fn color_removed_is_red() {
    assert_eq!(
        Color::removed("+this is has been removed"),
        "\x1b[0;91m+this is has been removed\x1b[0m"
    );
}

#[test]
fn color_color_none_has_no_effect() {
    assert_eq!(Color::none("same as input"), "same as input");
}
