//! Terminal colors.

use vstd::prelude::*;
use vstd::string::*;
use crate::reconcile::{Action, action_verb};
use crate::text::{decimal, to_decimal};

verus! {

pub const GREEN: &'static str = "\x1b[0;92m";
pub const YELLOW: &'static str = "\x1b[0;93m";
pub const RED: &'static str = "\x1b[0;91m";
pub const BLUE: &'static str = "\x1b[0;94m";
pub const BOLD_PURPLE: &'static str = "\x1b[1;95m";
pub const CYAN: &'static str = "\x1b[0;96m";
pub const ATTENUATE: &'static str = "\x1b[0;90m";
pub const TITLE: &'static str = "\x1b[1;4m";
pub const HIGHLIGHT: &'static str = "\x1b[0;92m";
pub const ITALIC: &'static str = "\x1b[3m";
pub const UNDERLINE: &'static str = "\x1b[4m";
pub const RESET: &'static str = "\x1b[0m";

/// `s` wrapped in the escape code `code` and the reset code, so that what
/// follows it is not colored.
pub open spec fn painted(code: Seq<char>, s: Seq<char>) -> Seq<char> {
    code + s + RESET@
}

/// Coloring of text for the terminal.
pub struct Color;

impl Color {
    /// `string` in color `color`, followed by the reset code.
    pub fn color(color: &str, string: &str) -> (r: String)
        ensures
            r@ == painted(color@, string@),
    {
        let mut r = color.to_owned();
        r.append(string);
        r.append(RESET);
        r
    }

    pub fn error(string: &str) -> (r: String)
        ensures
            r@ == painted(RED@, string@),
    {
        Self::color(RED, string)
    }

    pub fn warning(string: &str) -> (r: String)
        ensures
            r@ == painted(YELLOW@, string@),
    {
        Self::color(YELLOW, string)
    }

    pub fn in_sync(string: &str) -> (r: String)
        ensures
            r@ == painted(GREEN@, string@),
    {
        Self::color(GREEN, string)
    }

    pub fn modified(string: &str) -> (r: String)
        ensures
            r@ == painted(YELLOW@, string@),
    {
        Self::color(YELLOW, string)
    }

    pub fn missing(string: &str) -> (r: String)
        ensures
            r@ == painted(RED@, string@),
    {
        Self::color(RED, string)
    }

    pub fn symlink(string: &str) -> (r: String)
        ensures
            r@ == painted(BLUE@, string@),
    {
        Self::color(BLUE, string)
    }

    pub fn attenuate(string: &str) -> (r: String)
        ensures
            r@ == painted(ATTENUATE@, string@),
    {
        Self::color(ATTENUATE, string)
    }

    pub fn title(string: &str) -> (r: String)
        ensures
            r@ == painted(TITLE@, string@),
    {
        Self::color(TITLE, string)
    }

    pub fn file_name(string: &str) -> (r: String)
        ensures
            r@ == painted(BOLD_PURPLE@, string@),
    {
        Self::color(BOLD_PURPLE, string)
    }

    pub fn line_range(string: &str) -> (r: String)
        ensures
            r@ == painted(CYAN@, string@),
    {
        Self::color(CYAN, string)
    }

    pub fn added(string: &str) -> (r: String)
        ensures
            r@ == painted(GREEN@, string@),
    {
        Self::color(GREEN, string)
    }

    pub fn removed(string: &str) -> (r: String)
        ensures
            r@ == painted(RED@, string@),
    {
        Self::color(RED, string)
    }

    /// `string` as it is, for uniformity with the coloring functions.
    pub fn none(string: &str) -> (r: String)
        ensures
            r@ == string@,
    {
        string.to_owned()
    }

    /// The escape code `color`, or nothing when colors are turned off.
    pub fn maybe_color(color: &str, no_color: bool) -> (r: &str)
        ensures
            r@ == if no_color { Seq::<char>::empty() } else { color@ },
    {
        if no_color {
            proof {
                reveal_strlit("");
            }
            ""
        } else {
            color
        }
    }
}

/// `s` when `n` is not one, nothing otherwise.
pub open spec fn plural(n: nat) -> Seq<char> {
    if n == 1 { Seq::empty() } else { "s"@ }
}

fn plural_of(n: usize) -> (r: &'static str)
    ensures
        r@ == plural(n as nat),
{
    proof {
        reveal_strlit("");
        reveal_strlit("s");
    }
    if n == 1 { "" } else { "s" }
}

/// The lines that close a run of `action`.
pub open spec fn files_summary_of(action: Action, root: Seq<char>, files: nat, errors: nat) -> Seq<char> {
    let none_found = if files == 0 && errors == 0 {
        "No config files found in '"@ + root + "'.\n"@
    } else {
        Seq::empty()
    };
    let error_part = if errors > 0 {
        ", "@ + decimal(errors) + " error"@ + plural(errors)
    } else {
        Seq::empty()
    };
    none_found + action_verb(action) + " "@ + decimal(files) + " file"@ + plural(files) + error_part + "."@
}

/// The lines that close a run of `action` over `root`: a note when there
/// was no entry at all, then how many files were handled and how many
/// failed, if any.
pub fn files_summary(action: Action, root: &str, files: usize, errors: usize) -> (r: String)
    ensures
        r@ == files_summary_of(action, root@, files as nat, errors as nat),
{
    let mut r = String::new();
    if files == 0 && errors == 0 {
        r.append("No config files found in '");
        r.append(root);
        r.append("'.\n");
    }
    r.append(action.verb());
    r.append(" ");
    r.append(to_decimal(files).as_str());
    r.append(" file");
    r.append(plural_of(files));
    if errors > 0 {
        r.append(", ");
        r.append(to_decimal(errors).as_str());
        r.append(" error");
        r.append(plural_of(errors));
    }
    r.append(".");
    r
}

/// The line that tells how many hooks ran; none when none did.
pub fn hooks_summary(hooks: usize) -> (r: Option<String>)
    ensures
        match r {
            Some(s) => hooks > 0 && s@ == "Ran "@ + decimal(hooks as nat) + " hook"@ + plural(hooks as nat) + "."@,
            None => hooks == 0,
        },
{
    if hooks == 0 {
        return None;
    }
    let mut r = "Ran ".to_owned();
    r.append(to_decimal(hooks).as_str());
    r.append(" hook");
    r.append(plural_of(hooks));
    r.append(".");
    Some(r)
}

} // verus!
