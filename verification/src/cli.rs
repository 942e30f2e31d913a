//! The command line: what a `tt ...` invocation asks for.

use vstd::prelude::*;

use crate::config::{chars_of_all, strings_view, ConfigAction};
use crate::duration::{parse_duration, parse_duration_spec};
use crate::text::{eq_ic, eq_ignore_case_str, join_spaces, join_words, string_of, views};

verus! {

/// The parsed command line: the global `--test` flag and the subcommand.
pub struct Cli {
    /// Run against isolated test data instead of production data.
    pub test: bool,
    pub command: Option<Command>,
}

/// The subcommands.
pub enum Command {
    /// Manage tt configuration.
    Config { action: ConfigAction },
    /// Duration and/or name for a new or resumed timer.
    Timer(Vec<String>),
}

/// What a `tt` invocation asks for. Durations are milliseconds.
#[derive(Debug)]
pub enum CliAction {
    Resume,
    Clear,
    NewTimer(i64, String),
    DurationOnly(i64),
    NameOnly(String),
}

/// The mathematical value of a [`CliAction`].
pub enum CliActionModel {
    Resume,
    Clear,
    NewTimer(int, Seq<char>),
    DurationOnly(int),
    NameOnly(Seq<char>),
}

impl View for CliAction {
    type V = CliActionModel;

    open spec fn view(&self) -> CliActionModel {
        match self {
            CliAction::Resume => CliActionModel::Resume,
            CliAction::Clear => CliActionModel::Clear,
            CliAction::NewTimer(ms, name) => CliActionModel::NewTimer(*ms as int, name@),
            CliAction::DurationOnly(ms) => CliActionModel::DurationOnly(*ms as int),
            CliAction::NameOnly(name) => CliActionModel::NameOnly(name@),
        }
    }
}

/// The arguments are the single word `clear` or `reset`, in any ASCII case.
pub open spec fn is_clear_spec(args: Seq<Seq<char>>) -> bool {
    args.len() == 1 && (eq_ic(args[0], "clear"@) || eq_ic(args[0], "reset"@))
}

/// The timer arguments: a duration first or last, the other words the name;
/// without a duration all the words are the name.
pub open spec fn args_spec(args: Seq<Seq<char>>) -> CliActionModel {
    if args.len() == 0 {
        CliActionModel::Resume
    } else if parse_duration_spec(args[0]) is Ok {
        if args.len() == 1 {
            CliActionModel::DurationOnly(parse_duration_spec(args[0])->Ok_0)
        } else {
            CliActionModel::NewTimer(
                parse_duration_spec(args[0])->Ok_0,
                join_spaces(args.subrange(1, args.len() as int)),
            )
        }
    } else if args.len() >= 2 && parse_duration_spec(args.last()) is Ok {
        CliActionModel::NewTimer(parse_duration_spec(args.last())->Ok_0, join_spaces(args.drop_last()))
    } else {
        CliActionModel::NameOnly(join_spaces(args))
    }
}

/// What a command line asks for.
pub open spec fn action_spec(command: Option<Command>) -> CliActionModel {
    match command {
        Some(Command::Timer(args)) => if is_clear_spec(strings_view(args@)) {
            CliActionModel::Clear
        } else {
            args_spec(strings_view(args@))
        },
        _ => CliActionModel::Resume,
    }
}

impl Cli {
    /// The timer-related part of the command line as a high-level action. (The
    /// `config` subcommand is handled separately, before this is called.)
    pub fn action(&self) -> (r: CliAction)
        ensures
            r@ == action_spec(self.command),
    {
        match &self.command {
            Some(Command::Timer(args)) => {
                if is_clear_args(args.as_slice()) {
                    CliAction::Clear
                } else {
                    action_from_args(args.as_slice())
                }
            },
            _ => CliAction::Resume,
        }
    }
}

/// True only for `clear`/`reset` passed as the sole argument; `tt clear
/// something` is a timer named "clear something".
pub fn is_clear_args(args: &[String]) -> (r: bool)
    ensures
        r == is_clear_spec(strings_view(args@)),
{
    if args.len() != 1 {
        return false;
    }
    let a = crate::text::chars_of(args[0].as_str());
    eq_ignore_case_str(a.as_slice(), "clear") || eq_ignore_case_str(a.as_slice(), "reset")
}

/// Parses timer arguments into a `CliAction`: the time can be the first or
/// the last argument; everything else is the name.
pub fn action_from_args(args: &[String]) -> (r: CliAction)
    ensures
        r@ == args_spec(strings_view(args@)),
{
    if args.len() == 0 {
        return CliAction::Resume;
    }
    let words = chars_of_all(args);
    let ghost sv = strings_view(args@);
    assert(views(words@) == sv);
    if let Ok(ms) = parse_duration(args[0].as_str()) {
        if args.len() == 1 {
            return CliAction::DurationOnly(ms);
        }
        let name = join_words(words.as_slice(), 1, words.len());
        assert(views(words@.subrange(1, words@.len() as int)) =~= sv.subrange(1, sv.len() as int));
        return CliAction::NewTimer(ms, string_of(name.as_slice()));
    }
    if args.len() >= 2 {
        let last = args.len() - 1;
        if let Ok(ms) = parse_duration(args[last].as_str()) {
            let name = join_words(words.as_slice(), 0, last);
            assert(views(words@.subrange(0, last as int)) =~= sv.drop_last());
            return CliAction::NewTimer(ms, string_of(name.as_slice()));
        }
    }
    let name = join_words(words.as_slice(), 0, words.len());
    assert(views(words@.subrange(0, words@.len() as int)) =~= sv);
    CliAction::NameOnly(string_of(name.as_slice()))
}

} // verus!
