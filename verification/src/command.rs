//! The command bar: parsing what the user typed into a [`Command`].

use vstd::prelude::*;

use crate::duration::{parse_duration, parse_duration_spec, ParseError};
use crate::text::{
    all_ws, chars_of, eq_ic, eq_ignore_case_str, find_ws, is_ws, join_spaces, join_words,
    law_trim_ignores_padding, lower, split_words, string_of, sub_chars, trim, trim_end, trim_start,
    trimmed, views, words,
};

verus! {

/// A command typed into the command bar. Durations are milliseconds.
#[derive(Debug, PartialEq)]
pub enum Command {
    Pause,
    Reset,
    Update(i64),
    Revert,
    Remove,
    Complete,
    NewTimer(i64, String),
    NamePrompt(i64),
    Switch,
    TimerPrompt(String),
    Quit,
    Unknown(String),
}

/// The mathematical value of a [`Command`]: strings as character sequences.
pub enum CommandModel {
    Pause,
    Reset,
    Update(int),
    Revert,
    Remove,
    Complete,
    NewTimer(int, Seq<char>),
    NamePrompt(int),
    Switch,
    TimerPrompt(Seq<char>),
    Quit,
    Unknown(Seq<char>),
}

impl View for Command {
    type V = CommandModel;

    open spec fn view(&self) -> CommandModel {
        match self {
            Command::Pause => CommandModel::Pause,
            Command::Reset => CommandModel::Reset,
            Command::Update(ms) => CommandModel::Update(*ms as int),
            Command::Revert => CommandModel::Revert,
            Command::Remove => CommandModel::Remove,
            Command::Complete => CommandModel::Complete,
            Command::NewTimer(ms, name) => CommandModel::NewTimer(*ms as int, name@),
            Command::NamePrompt(ms) => CommandModel::NamePrompt(*ms as int),
            Command::Switch => CommandModel::Switch,
            Command::TimerPrompt(name) => CommandModel::TimerPrompt(name@),
            Command::Quit => CommandModel::Quit,
            Command::Unknown(s) => CommandModel::Unknown(s@),
        }
    }
}

/// `s` equals one of the aliases, ignoring ASCII case.
pub open spec fn is_alias(s: Seq<char>, aliases: Seq<Seq<char>>) -> bool {
    exists|i: int| 0 <= i < aliases.len() && eq_ic(s, #[trigger] aliases[i])
}

pub open spec fn quit_aliases() -> Seq<Seq<char>> {
    seq!["q"@, "quit"@, "exit"@]
}

pub open spec fn pause_aliases() -> Seq<Seq<char>> {
    seq!["p"@, "pause"@, "paus"@]
}

pub open spec fn reset_aliases() -> Seq<Seq<char>> {
    seq!["r"@, "rst"@, "reset"@]
}

pub open spec fn revert_aliases() -> Seq<Seq<char>> {
    seq!["revert"@, "rollback"@]
}

pub open spec fn remove_aliases() -> Seq<Seq<char>> {
    seq!["stop"@, "remove"@, "rm"@]
}

pub open spec fn complete_aliases() -> Seq<Seq<char>> {
    seq!["c"@, "complete"@, "done"@]
}

pub open spec fn switch_aliases() -> Seq<Seq<char>> {
    seq!["tt"@]
}

/// The arguments after `tt`: a duration first or last, the other words the
/// name; no duration at all makes the whole text a name to ask a time for.
pub open spec fn tt_args_spec(args: Seq<char>) -> CommandModel {
    let parts = words(args);
    if args.len() == 0 {
        CommandModel::Switch
    } else if parse_duration_spec(parts[0]) is Ok {
        if parts.len() > 1 {
            CommandModel::NewTimer(
                parse_duration_spec(parts[0])->Ok_0,
                join_spaces(parts.subrange(1, parts.len() as int)),
            )
        } else {
            CommandModel::NamePrompt(parse_duration_spec(parts[0])->Ok_0)
        }
    } else if parts.len() >= 2 && parse_duration_spec(parts.last()) is Ok {
        CommandModel::NewTimer(
            parse_duration_spec(parts.last())->Ok_0,
            join_spaces(parts.drop_last()),
        )
    } else {
        CommandModel::TimerPrompt(args)
    }
}

/// The command that the input text `input` denotes.
pub open spec fn parse_spec(input: Seq<char>) -> CommandModel {
    let t = trim(input);
    if t.len() == 0 {
        CommandModel::Unknown(seq![])
    } else if is_alias(t, quit_aliases()) {
        CommandModel::Quit
    } else if is_alias(t, pause_aliases()) {
        CommandModel::Pause
    } else if is_alias(t, reset_aliases()) {
        CommandModel::Reset
    } else if is_alias(t, revert_aliases()) {
        CommandModel::Revert
    } else if is_alias(t, remove_aliases()) {
        CommandModel::Remove
    } else if is_alias(t, complete_aliases()) {
        CommandModel::Complete
    } else if is_alias(t, switch_aliases()) {
        CommandModel::Switch
    } else {
        match split_ws(t) {
            Some((head, tail)) => {
                let rest = trim(tail);
                if eq_ic(head, "update"@) {
                    match parse_duration_spec(rest) {
                        Ok(ms) => CommandModel::Update(ms),
                        Err(_) => CommandModel::Unknown(t),
                    }
                } else if eq_ic(head, "tt"@) {
                    tt_args_spec(rest)
                } else {
                    CommandModel::Unknown(t)
                }
            },
            None => CommandModel::Unknown(t),
        }
    }
}

/// Splits at the first whitespace character: the text before it and the
/// text after it (`str::split_once(char::is_whitespace)`).
pub open spec fn split_ws(s: Seq<char>) -> Option<(Seq<char>, Seq<char>)> {
    if exists|i: int| 0 <= i < s.len() && is_ws(#[trigger] s[i]) {
        let i = choose|i: int|
            0 <= i < s.len() && is_ws(#[trigger] s[i]) && forall|k: int|
                0 <= k < i ==> !is_ws(#[trigger] s[k]);
        Some((s.subrange(0, i), s.subrange(i + 1, s.len() as int)))
    } else {
        None
    }
}

proof fn lemma_trim_end_last(s: Seq<char>)
    ensures
        trim_end(s).len() > 0 ==> !is_ws(trim_end(s).last()),
        trim_end(s).len() > 0 ==> trim_end(s)[0] == s[0],
    decreases s.len(),
{
    if s.len() > 0 && is_ws(s.last()) {
        lemma_trim_end_last(s.drop_last());
    }
}

proof fn lemma_trim_last(s: Seq<char>)
    ensures
        trim(s).len() > 0 ==> !is_ws(trim(s).last()),
{
    lemma_trim_end_last(trim_start(s));
}

proof fn lemma_words_nonempty(s: Seq<char>)
    requires
        s.len() > 0,
        !is_ws(s.last()),
    ensures
        words(s).len() > 0,
    decreases s.len(),
{
    let init = s.drop_last();
    if init.len() > 0 && !is_ws(init.last()) {
        lemma_words_nonempty(init);
    }
}

fn in_aliases(t: &[char], a: &str, b: &str, c: &str) -> (r: bool)
    ensures
        r == (eq_ic(t@, a@) || eq_ic(t@, b@) || eq_ic(t@, c@)),
{
    eq_ignore_case_str(t, a) || eq_ignore_case_str(t, b) || eq_ignore_case_str(t, c)
}

fn duration_of(s: &[char]) -> (r: Result<i64, ParseError>)
    ensures
        match (r, parse_duration_spec(s@)) {
            (Ok(v), Ok(w)) => v as int == w,
            (Err(_), Err(_)) => true,
            _ => false,
        },
{
    let st = string_of(s);
    parse_duration(st.as_str())
}

impl Command {
    /// Parses user input from the command bar into a `Command`.
    pub fn parse(input: &str) -> (r: Command)
        ensures
            r@ == parse_spec(input@),
    {
        let v = chars_of(input);
        let t = trimmed(v.as_slice());
        let ts = t.as_slice();
        if t.len() == 0 {
            return Command::Unknown(String::new());
        }
        let ghost tv = t@;
        if in_aliases(ts, "q", "quit", "exit") {
            assert(eq_ic(tv, quit_aliases()[0]) || eq_ic(tv, quit_aliases()[1]) || eq_ic(tv, quit_aliases()[2]));
            return Command::Quit;
        }
        assert(!is_alias(tv, quit_aliases())) by {
            assert forall|i: int| 0 <= i < 3 implies !eq_ic(tv, #[trigger] quit_aliases()[i]) by {}
        }
        if in_aliases(ts, "p", "pause", "paus") {
            assert(eq_ic(tv, pause_aliases()[0]) || eq_ic(tv, pause_aliases()[1]) || eq_ic(tv, pause_aliases()[2]));
            return Command::Pause;
        }
        assert(!is_alias(tv, pause_aliases())) by {
            assert forall|i: int| 0 <= i < 3 implies !eq_ic(tv, #[trigger] pause_aliases()[i]) by {}
        }
        if in_aliases(ts, "r", "rst", "reset") {
            assert(eq_ic(tv, reset_aliases()[0]) || eq_ic(tv, reset_aliases()[1]) || eq_ic(tv, reset_aliases()[2]));
            return Command::Reset;
        }
        assert(!is_alias(tv, reset_aliases())) by {
            assert forall|i: int| 0 <= i < 3 implies !eq_ic(tv, #[trigger] reset_aliases()[i]) by {}
        }
        if eq_ignore_case_str(ts, "revert") || eq_ignore_case_str(ts, "rollback") {
            assert(eq_ic(tv, revert_aliases()[0]) || eq_ic(tv, revert_aliases()[1]));
            return Command::Revert;
        }
        assert(!is_alias(tv, revert_aliases())) by {
            assert forall|i: int| 0 <= i < 2 implies !eq_ic(tv, #[trigger] revert_aliases()[i]) by {}
        }
        if in_aliases(ts, "stop", "remove", "rm") {
            assert(eq_ic(tv, remove_aliases()[0]) || eq_ic(tv, remove_aliases()[1]) || eq_ic(tv, remove_aliases()[2]));
            return Command::Remove;
        }
        assert(!is_alias(tv, remove_aliases())) by {
            assert forall|i: int| 0 <= i < 3 implies !eq_ic(tv, #[trigger] remove_aliases()[i]) by {}
        }
        if in_aliases(ts, "c", "complete", "done") {
            assert(eq_ic(tv, complete_aliases()[0]) || eq_ic(tv, complete_aliases()[1]) || eq_ic(tv, complete_aliases()[2]));
            return Command::Complete;
        }
        assert(!is_alias(tv, complete_aliases())) by {
            assert forall|i: int| 0 <= i < 3 implies !eq_ic(tv, #[trigger] complete_aliases()[i]) by {}
        }
        if eq_ignore_case_str(ts, "tt") {
            assert(eq_ic(tv, switch_aliases()[0]));
            return Command::Switch;
        }
        assert(!is_alias(tv, switch_aliases())) by {
            assert forall|i: int| 0 <= i < 1 implies !eq_ic(tv, #[trigger] switch_aliases()[i]) by {}
        }
        match find_ws(ts) {
            Some(i) => {
                let head = sub_chars(ts, 0, i);
                let tail = sub_chars(ts, i + 1, t.len());
                let rest = trimmed(tail.as_slice());
                proof {
                    lemma_trim_last(tail@);
                    let j = choose|j: int|
                        0 <= j < tv.len() && is_ws(#[trigger] tv[j]) && forall|k: int|
                            0 <= k < j ==> !is_ws(#[trigger] tv[k]);
                    if j < i {
                    } else if i < j {
                        assert(!is_ws(tv[i as int]));
                    }
                    assert(j == i);
                }
                if eq_ignore_case_str(head.as_slice(), "update") {
                    match duration_of(rest.as_slice()) {
                        Ok(ms) => Command::Update(ms),
                        Err(_) => Command::Unknown(string_of(ts)),
                    }
                } else if eq_ignore_case_str(head.as_slice(), "tt") {
                    Self::parse_tt_args(rest.as_slice())
                } else {
                    Command::Unknown(string_of(ts))
                }
            },
            None => Command::Unknown(string_of(ts)),
        }
    }

    /// Parses the arguments after `tt`: the time may be the first or the last
    /// word, the rest is the name.
    fn parse_tt_args(args: &[char]) -> (r: Command)
        requires
            args@.len() > 0 ==> !is_ws(args@.last()),
        ensures
            r@ == tt_args_spec(args@),
    {
        if args.len() == 0 {
            return Command::Switch;
        }
        proof {
            lemma_words_nonempty(args@);
        }
        let parts = split_words(args);
        let ghost ps = words(args@);
        assert(parts@[0]@ == ps[0]);
        if let Ok(ms) = duration_of(parts[0].as_slice()) {
            if parts.len() > 1 {
                let name = join_words(parts.as_slice(), 1, parts.len());
                assert(views(parts@.subrange(1, parts@.len() as int)) =~= ps.subrange(1, ps.len() as int));
                return Command::NewTimer(ms, string_of(name.as_slice()));
            } else {
                return Command::NamePrompt(ms);
            }
        }
        if parts.len() >= 2 {
            let last = parts.len() - 1;
            assert(parts@[last as int]@ == ps.last());
            if let Ok(ms) = duration_of(parts[last].as_slice()) {
                let name = join_words(parts.as_slice(), 0, last);
                assert(views(parts@.subrange(0, last as int)) =~= ps.drop_last());
                return Command::NewTimer(ms, string_of(name.as_slice()));
            }
        }
        Command::TimerPrompt(string_of(args))
    }
}

/// Whitespace around a command does not change what it means.
pub proof fn law_parse_ignores_padding(a: Seq<char>, input: Seq<char>, b: Seq<char>)
    requires
        all_ws(a),
        all_ws(b),
    ensures
        parse_spec(a + input + b) == parse_spec(input),
{
    law_trim_ignores_padding(a, input, b);
}

/// Command words are read ignoring ASCII case: two inputs that differ only
/// in ASCII case give the same command, when it is one without arguments.
pub proof fn law_command_words_ignore_case(x: Seq<char>, y: Seq<char>)
    requires
        x.len() == y.len(),
        forall|i: int| 0 <= i < x.len() ==> lower(#[trigger] x[i]) == lower(y[i]),
        !is_ws(x.first()) && !is_ws(y.first()) && !is_ws(x.last()) && !is_ws(y.last()),
        parse_spec(x) is Quit || parse_spec(x) is Pause || parse_spec(x) is Reset || parse_spec(x) is Revert
            || parse_spec(x) is Remove || parse_spec(x) is Complete,
    ensures
        parse_spec(y) == parse_spec(x),
{
    assert(x.len() > 0);
    assert(trim_start(x) == x);
    assert(trim_end(x) == x);
    assert(trim_start(y) == y);
    assert(trim_end(y) == y);
    lemma_alias_iff(x, y, quit_aliases());
    lemma_alias_iff(x, y, pause_aliases());
    lemma_alias_iff(x, y, reset_aliases());
    lemma_alias_iff(x, y, revert_aliases());
    lemma_alias_iff(x, y, remove_aliases());
    lemma_alias_iff(x, y, complete_aliases());
    assert(trim(x) == x);
    assert(trim(y) == y);
    if is_alias(x, quit_aliases()) {
    } else if is_alias(x, pause_aliases()) {
    } else if is_alias(x, reset_aliases()) {
    } else if is_alias(x, revert_aliases()) {
    } else if is_alias(x, remove_aliases()) {
    } else if is_alias(x, complete_aliases()) {
    } else {
        assert(!(parse_spec(x) is Quit || parse_spec(x) is Pause || parse_spec(x) is Reset
            || parse_spec(x) is Revert || parse_spec(x) is Remove || parse_spec(x) is Complete));
    }
}

proof fn lemma_alias_iff(x: Seq<char>, y: Seq<char>, aliases: Seq<Seq<char>>)
    requires
        x.len() == y.len(),
        forall|i: int| 0 <= i < x.len() ==> lower(#[trigger] x[i]) == lower(y[i]),
    ensures
        is_alias(x, aliases) == is_alias(y, aliases),
{
    if is_alias(x, aliases) {
        let i = choose|i: int| 0 <= i < aliases.len() && eq_ic(x, #[trigger] aliases[i]);
        assert forall|k: int| 0 <= k < y.len() implies lower(#[trigger] y[k]) == lower(aliases[i][k]) by {
            assert(lower(x[k]) == lower(y[k]));
        }
        assert(eq_ic(y, aliases[i]));
    }
    if is_alias(y, aliases) {
        let i = choose|i: int| 0 <= i < aliases.len() && eq_ic(y, #[trigger] aliases[i]);
        assert forall|k: int| 0 <= k < x.len() implies lower(#[trigger] x[k]) == lower(aliases[i][k]) by {
            assert(lower(x[k]) == lower(y[k]));
        }
        assert(eq_ic(x, aliases[i]));
    }
}

} // verus!
