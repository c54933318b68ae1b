//! Command-line arguments.

use vstd::prelude::*;
use vstd::string::*;
use crate::text::same_text;

verus! {

/// The command to run.
#[derive(Clone, Copy, Debug, PartialEq, Eq, Structural)]
pub enum Command {
    Sync,
    RSync,
    Link,
    Status,
    Diff,
    Clean,
    Nuts,
}

/// What the command line asks for.
#[derive(Debug, PartialEq, Eq)]
pub struct Args {
    pub command: Option<Command>,
    pub reversed_diff: bool,
    pub root: Option<String>,
    pub short_help: bool,
    pub long_help: bool,
    pub version: bool,
    pub verbose: bool,
}

/// The arguments as plain values.
pub struct ArgsView {
    pub command: Option<Command>,
    pub reversed_diff: bool,
    pub root: Option<Seq<char>>,
    pub short_help: bool,
    pub long_help: bool,
    pub version: bool,
    pub verbose: bool,
}

impl View for Args {
    type V = ArgsView;

    open spec fn view(&self) -> ArgsView {
        ArgsView {
            command: self.command,
            reversed_diff: self.reversed_diff,
            root: match self.root {
                Some(r) => Some(r@),
                None => None,
            },
            short_help: self.short_help,
            long_help: self.long_help,
            version: self.version,
            verbose: self.verbose,
        }
    }
}

pub open spec fn no_args() -> ArgsView {
    ArgsView {
        command: None,
        reversed_diff: false,
        root: None,
        short_help: false,
        long_help: false,
        version: false,
        verbose: false,
    }
}

pub open spec fn unknown_argument(arg: Seq<char>) -> Seq<char> {
    "Unknown argument: '"@ + arg + "'"@
}

pub open spec fn with_command(a: ArgsView, c: Command) -> ArgsView {
    ArgsView { command: Some(c), ..a }
}

/// The command that word `w` names, alone or by its shortcut.
pub open spec fn command_word(w: Seq<char>) -> Option<Command> {
    if w == "sync"@ || w == "s"@ {
        Some(Command::Sync)
    } else if w == "rsync"@ || w == "rs"@ {
        Some(Command::RSync)
    } else if w == "link"@ || w == "l"@ {
        Some(Command::Link)
    } else if w == "status"@ || w == "st"@ {
        Some(Command::Status)
    } else if w == "diff"@ || w == "df"@ {
        Some(Command::Diff)
    } else if w == "clean"@ || w == "c"@ {
        Some(Command::Clean)
    } else if w == "nuts"@ {
        Some(Command::Nuts)
    } else {
        None
    }
}

/// Reading the words `rest` after `a` has been read: the first command word
/// wins, `-r` counts only after `diff`, the first other word after the
/// command is the root (`--` makes the next word the root, whatever it is),
/// and any other word is an error.
pub open spec fn parse(a: ArgsView, rest: Seq<Seq<char>>) -> Result<ArgsView, Seq<char>>
    decreases rest.len(),
{
    if rest.len() == 0 {
        Ok(a)
    } else {
        let w = rest[0];
        let tail = rest.drop_first();
        let some_command = a.command is Some;
        let some_root = a.root is Some;
        if command_word(w) is Some && !some_command {
            parse(with_command(a, command_word(w)->Some_0), tail)
        } else if (w == "-r"@ || w == "--reversed"@) && a.command == Some(Command::Diff) {
            parse(ArgsView { reversed_diff: true, ..a }, tail)
        } else if w == "-h"@ {
            parse(ArgsView { short_help: true, ..a }, tail)
        } else if w == "--help"@ {
            parse(ArgsView { long_help: true, ..a }, tail)
        } else if w == "-V"@ || w == "--version"@ {
            parse(ArgsView { version: true, ..a }, tail)
        } else if w == "-v"@ || w == "--verbose"@ {
            parse(ArgsView { verbose: true, ..a }, tail)
        } else if w == "--"@ && some_command && !some_root {
            if tail.len() == 0 {
                Ok(a)
            } else {
                parse(ArgsView { root: Some(tail[0]), ..a }, tail.drop_first())
            }
        } else if some_command && !some_root {
            parse(ArgsView { root: Some(w), ..a }, tail)
        } else {
            Err(unknown_argument(w))
        }
    }
}

fn command_of(w: &str) -> (r: Option<Command>)
    ensures
        r == command_word(w@),
{
    if same_text(w, "sync") || same_text(w, "s") {
        Some(Command::Sync)
    } else if same_text(w, "rsync") || same_text(w, "rs") {
        Some(Command::RSync)
    } else if same_text(w, "link") || same_text(w, "l") {
        Some(Command::Link)
    } else if same_text(w, "status") || same_text(w, "st") {
        Some(Command::Status)
    } else if same_text(w, "diff") || same_text(w, "df") {
        Some(Command::Diff)
    } else if same_text(w, "clean") || same_text(w, "c") {
        Some(Command::Clean)
    } else if same_text(w, "nuts") {
        Some(Command::Nuts)
    } else {
        None
    }
}

impl Args {
    /// Read the command line, without the program's name.
    pub fn build_from_args(cli_args: &[&str]) -> (r: Result<Args, String>)
        ensures
            match (r, parse(no_args(), cli_args@.map_values(|s: &str| s@))) {
                (Ok(a), Ok(v)) => a@ == v,
                (Err(e), Err(m)) => e@ == m,
                _ => false,
            },
    {
        let ghost words = cli_args@.map_values(|s: &str| s@);
        let mut args = Args {
            command: None,
            reversed_diff: false,
            root: None,
            short_help: false,
            long_help: false,
            version: false,
            verbose: false,
        };
        let n = cli_args.len();
        let mut i: usize = 0;
        assert(words.subrange(0, n as int) =~= words);
        assert(words.subrange(i as int, n as int) =~= words);
        while i < n
            invariant
                i <= n,
                n == cli_args@.len(),
                words == cli_args@.map_values(|s: &str| s@),
                parse(no_args(), words) == parse(args@, words.subrange(i as int, n as int)),
            decreases n - i,
        {
            let ghost rest = words.subrange(i as int, n as int);
            assert(rest[0] == cli_args@[i as int]@);
            assert(rest.drop_first() =~= words.subrange(i + 1, n as int));
            let w = cli_args[i];
            let some_command = args.command.is_some();
            let some_root = args.root.is_some();
            let is_diff = match args.command {
                Some(Command::Diff) => true,
                _ => false,
            };
            let c = command_of(w);
            if c.is_some() && !some_command {
                args.command = c;
            } else if (same_text(w, "-r") || same_text(w, "--reversed")) && is_diff {
                args.reversed_diff = true;
            } else if same_text(w, "-h") {
                args.short_help = true;
            } else if same_text(w, "--help") {
                args.long_help = true;
            } else if same_text(w, "-V") || same_text(w, "--version") {
                args.version = true;
            } else if same_text(w, "-v") || same_text(w, "--verbose") {
                args.verbose = true;
            } else if same_text(w, "--") && some_command && !some_root {
                if i + 1 < n {
                    assert(rest.drop_first()[0] == cli_args@[i + 1]@);
                    assert(rest.drop_first().drop_first() =~= words.subrange(i + 2, n as int));
                    args.root = Some(cli_args[i + 1].to_owned());
                    i += 1;
                } else {
                    return Ok(args);
                }
            } else if some_command && !some_root {
                args.root = Some(w.to_owned());
            } else {
                let mut e = "Unknown argument: '".to_owned();
                e.append(w);
                e.append("'");
                return Err(e);
            }
            i += 1;
        }
        assert(words.subrange(i as int, n as int) =~= Seq::<Seq<char>>::empty());
        Ok(args)
    }
}

} // verus!
