//! Settings: the one `integrate_with_task` switch, its validation, and what
//! the `tt config` subcommands answer. Reading and writing the settings file
//! is the caller's part; this module decides.

use vstd::prelude::*;

use crate::text::{
    chars_of, eq_ic, is_ws, join_spaces, join_words, law_trim_idempotent, lower_all, push_str, string_of,
    sub_chars, to_lower_all, trim, trim_end, trim_start, trimmed, views,
};

verus! {

/// The only supported config key.
pub const KEY_INTEGRATE_WITH_TASK: &'static str = "integrate_with_task";

/// `tt config` subcommands.
#[derive(Debug)]
pub enum ConfigAction {
    /// List all settings as `key=value`.
    List,
    /// Update a setting (`key=value` or `key value`).
    SetKey { args: Vec<String> },
}

/// The settings.
#[derive(Debug, Clone, Copy, PartialEq, Eq)]
pub struct Config {
    pub integrate_with_task: bool,
}

/// The default of `integrate_with_task`.
pub fn default_true() -> (r: bool)
    ensures
        r,
{
    true
}

impl Default for Config {
    fn default() -> (r: Self)
        ensures
            r.integrate_with_task,
    {
        Config { integrate_with_task: default_true() }
    }
}

/// Why a `tt config` command failed.
#[derive(Debug, PartialEq, Eq)]
pub enum ConfigError {
    UnknownKey(String),
    InvalidValue { key: String, value: String },
    BadUsage(String),
    NoConfigDir,
    Io(String),
}

/// The accepted spellings of a boolean.
pub open spec fn bool_spec(v: Seq<char>) -> Option<bool> {
    let l = lower_all(trim(v));
    if l == "true"@ || l == "1"@ || l == "yes"@ || l == "on"@ {
        Some(true)
    } else if l == "false"@ || l == "0"@ || l == "no"@ || l == "off"@ {
        Some(false)
    } else {
        None
    }
}

fn is_one_of4(l: &[char], a: &str, b: &str, c: &str, d: &str) -> (r: bool)
    ensures
        r == (l@ == a@ || l@ == b@ || l@ == c@ || l@ == d@),
{
    crate::text::chars_eq_str(l, a) || crate::text::chars_eq_str(l, b)
        || crate::text::chars_eq_str(l, c) || crate::text::chars_eq_str(l, d)
}

/// Parses a boolean config value, accepting common spellings (`true`, `1`,
/// `yes`, `on` and their opposites), ignoring surrounding whitespace and
/// ASCII case.
pub fn parse_bool(value: &str) -> (r: Option<bool>)
    ensures
        r == bool_spec(value@),
{
    let v = chars_of(value);
    let t = trimmed(v.as_slice());
    let l = to_lower_all(t.as_slice());
    if is_one_of4(l.as_slice(), "true", "1", "yes", "on") {
        Some(true)
    } else if is_one_of4(l.as_slice(), "false", "0", "no", "off") {
        Some(false)
    } else {
        None
    }
}

/// The mathematical value of a `ConfigError`.
pub enum ConfigErrorModel {
    UnknownKey(Seq<char>),
    InvalidValue { key: Seq<char>, value: Seq<char> },
    BadUsage(Seq<char>),
    NoConfigDir,
    Io(Seq<char>),
}

impl View for ConfigError {
    type V = ConfigErrorModel;

    open spec fn view(&self) -> ConfigErrorModel {
        match self {
            ConfigError::UnknownKey(k) => ConfigErrorModel::UnknownKey(k@),
            ConfigError::InvalidValue { key, value } => ConfigErrorModel::InvalidValue {
                key: key@,
                value: value@,
            },
            ConfigError::BadUsage(m) => ConfigErrorModel::BadUsage(m@),
            ConfigError::NoConfigDir => ConfigErrorModel::NoConfigDir,
            ConfigError::Io(m) => ConfigErrorModel::Io(m@),
        }
    }
}

/// The message of an error, as the command line reports it.
pub open spec fn error_text(e: ConfigErrorModel) -> Seq<char> {
    match e {
        ConfigErrorModel::UnknownKey(k) => "unknown config key '"@ + k + "' (valid keys: "@
            + KEY_INTEGRATE_WITH_TASK@ + ")"@,
        ConfigErrorModel::InvalidValue { key, value } => "invalid value '"@ + value + "' for '"@
            + key + "' (expected a boolean: true/false)"@,
        ConfigErrorModel::BadUsage(m) => m,
        ConfigErrorModel::NoConfigDir => "could not determine config directory"@,
        ConfigErrorModel::Io(m) => "failed to write config: "@ + m,
    }
}

impl ConfigError {
    /// The message of the error, as the command line reports it.
    pub fn message(&self) -> (r: String)
        ensures
            r@ == error_text(self@),
    {
        let mut v: Vec<char> = Vec::new();
        match self {
            ConfigError::UnknownKey(k) => {
                push_str(&mut v, "unknown config key '");
                push_str(&mut v, k.as_str());
                push_str(&mut v, "' (valid keys: ");
                push_str(&mut v, KEY_INTEGRATE_WITH_TASK);
                push_str(&mut v, ")");
            },
            ConfigError::InvalidValue { key, value } => {
                push_str(&mut v, "invalid value '");
                push_str(&mut v, value.as_str());
                push_str(&mut v, "' for '");
                push_str(&mut v, key.as_str());
                push_str(&mut v, "' (expected a boolean: true/false)");
            },
            ConfigError::BadUsage(m) => {
                push_str(&mut v, m.as_str());
            },
            ConfigError::NoConfigDir => {
                push_str(&mut v, "could not determine config directory");
            },
            ConfigError::Io(m) => {
                push_str(&mut v, "failed to write config: ");
                push_str(&mut v, m.as_str());
            },
        }
        string_of(v.as_slice())
    }
}

/// What setting `key` to `value` does: the new settings, or the error.
pub open spec fn set_spec(cfg: Config, key: Seq<char>, value: Seq<char>) -> Result<Config, ConfigErrorModel> {
    if key == KEY_INTEGRATE_WITH_TASK@ {
        match bool_spec(value) {
            Some(b) => Ok(Config { integrate_with_task: b }),
            None => Err(ConfigErrorModel::InvalidValue { key, value }),
        }
    } else {
        Err(ConfigErrorModel::UnknownKey(key))
    }
}

/// The text of a boolean, as `bool::to_string` gives it.
pub open spec fn bool_text(b: bool) -> Seq<char> {
    if b {
        "true"@
    } else {
        "false"@
    }
}

/// The settings as `(key, value)` pairs.
pub open spec fn pairs_spec(cfg: Config) -> Seq<(Seq<char>, Seq<char>)> {
    seq![(KEY_INTEGRATE_WITH_TASK@, bool_text(cfg.integrate_with_task))]
}

fn bool_string(b: bool) -> (r: String)
    ensures
        r@ == bool_text(b),
{
    if b {
        String::from_str("true")
    } else {
        String::from_str("false")
    }
}

impl Config {
    /// Validates and applies a `key`/`value` pair. On an error the settings
    /// stay as they were.
    pub fn set(&mut self, key: &str, value: &str) -> (r: Result<(), ConfigError>)
        ensures
            match set_spec(*old(self), key@, value@) {
                Ok(c) => r is Ok && *final(self) == c,
                Err(e) => r matches Err(x) && x@ == e && *final(self) == *old(self),
            },
    {
        let k = chars_of(key);
        if crate::text::chars_eq_str(k.as_slice(), KEY_INTEGRATE_WITH_TASK) {
            match parse_bool(value) {
                Some(b) => {
                    self.integrate_with_task = b;
                    Ok(())
                },
                None => Err(
                    ConfigError::InvalidValue {
                        key: String::from_str(key),
                        value: String::from_str(value),
                    },
                ),
            }
        } else {
            Err(ConfigError::UnknownKey(String::from_str(key)))
        }
    }

    /// All settings as `(key, value)` pairs, for `tt config list`.
    pub fn pairs(&self) -> (r: Vec<(String, String)>)
        ensures
            r@.len() == pairs_spec(*self).len(),
            forall|i: int|
                0 <= i < r@.len() ==> (#[trigger] r@[i]).0@ == pairs_spec(*self)[i].0 && r@[i].1@
                    == pairs_spec(*self)[i].1,
    {
        let mut r: Vec<(String, String)> = Vec::new();
        r.push((String::from_str(KEY_INTEGRATE_WITH_TASK), bool_string(self.integrate_with_task)));
        r
    }
}

/// The characters before the first `c` and after it, if `c` occurs.
pub open spec fn split_at_char(s: Seq<char>, c: char) -> Option<(Seq<char>, Seq<char>)> {
    if exists|i: int| 0 <= i < s.len() && #[trigger] s[i] == c {
        let i = choose|i: int|
            0 <= i < s.len() && #[trigger] s[i] == c && forall|k: int| 0 <= k < i ==> #[trigger] s[k] != c;
        Some((s.subrange(0, i), s.subrange(i + 1, s.len() as int)))
    } else {
        None
    }
}

/// What `parse_set` gives for the words after `set`.
pub open spec fn parse_set_spec(rest: Seq<Seq<char>>) -> Result<(Seq<char>, Seq<char>), ConfigErrorModel> {
    if rest.len() == 0 {
        Err(ConfigErrorModel::BadUsage("usage: tt config set <key>=<value>"@))
    } else {
        let first = rest[0];
        match split_at_char(first, '=') {
            Some((k, v)) => Ok((trim(k), trim(v))),
            None => if rest.len() >= 2 {
                Ok((trim(first), trim(join_spaces(rest.subrange(1, rest.len() as int)))))
            } else {
                Err(
                    ConfigErrorModel::BadUsage(
                        "missing value for '"@ + first + "' (use `key=value` or `key value`)"@,
                    ),
                )
            },
        }
    }
}

/// The views of a slice of strings.
pub open spec fn strings_view(v: Seq<String>) -> Seq<Seq<char>> {
    v.map_values(|s: String| s@)
}

/// The characters of each string.
pub fn chars_of_all(v: &[String]) -> (r: Vec<Vec<char>>)
    ensures
        views(r@) == strings_view(v@),
{
    let mut r: Vec<Vec<char>> = Vec::new();
    let n = v.len();
    for i in 0..n
        invariant
            n == v@.len(),
            views(r@) == strings_view(v@.take(i as int)),
    {
        r.push(chars_of(v[i].as_str()));
        assert(strings_view(v@.take(i + 1)) =~= strings_view(v@.take(i as int)).push(v@[i as int]@));
        assert(views(r@) =~= views(r@.drop_last()).push(r@.last()@));
    }
    assert(v@.take(n as int) =~= v@);
    r
}

/// Splits the words after `set` into a `(key, value)` pair, accepting both
/// `key=value` and `key value`.
pub fn parse_set(rest: &[String]) -> (r: Result<(String, String), ConfigError>)
    ensures
        match (r, parse_set_spec(strings_view(rest@))) {
            (Ok((k, v)), Ok((sk, sv))) => k@ == sk && v@ == sv,
            (Err(e), Err(se)) => e@ == se,
            _ => false,
        },
{
    if rest.len() == 0 {
        return Err(ConfigError::BadUsage(String::from_str("usage: tt config set <key>=<value>")));
    }
    let words = chars_of_all(rest);
    let first = &words[0];
    assert(first@ == strings_view(rest@)[0]);
    let n = first.len();
    let mut i: usize = 0;
    while i < n && first[i] != '='
        invariant
            i <= n == first@.len(),
            forall|k: int| 0 <= k < i ==> #[trigger] first@[k] != '=',
        decreases n - i,
    {
        i = i + 1;
    }
    if i < n {
        let ghost s = first@;
        proof {
            let j = choose|j: int|
                0 <= j < s.len() && #[trigger] s[j] == '=' && forall|k: int| 0 <= k < j ==> #[trigger] s[k] != '=';
            if j < i {
            } else if i < j {
                assert(s[i as int] == '=');
            }
        }
        let k = sub_chars(first.as_slice(), 0, i);
        let v = sub_chars(first.as_slice(), i + 1, n);
        let kt = trimmed(k.as_slice());
        let vt = trimmed(v.as_slice());
        return Ok((string_of(kt.as_slice()), string_of(vt.as_slice())));
    }
    if rest.len() >= 2 {
        let value = join_words(words.as_slice(), 1, words.len());
        assert(views(words@.subrange(1, words@.len() as int)) =~= strings_view(rest@).subrange(1, rest@.len() as int));
        let kt = trimmed(first.as_slice());
        let vt = trimmed(value.as_slice());
        return Ok((string_of(kt.as_slice()), string_of(vt.as_slice())));
    }
    let mut msg = String::from_str("missing value for '");
    msg.append(rest[0].as_str());
    msg.append("' (use `key=value` or `key value`)");
    Err(ConfigError::BadUsage(msg))
}

/// The `key=value` lines of the settings, joined with newlines.
pub open spec fn list_text(cfg: Config) -> Seq<char> {
    KEY_INTEGRATE_WITH_TASK@ + "="@ + bool_text(cfg.integrate_with_task)
}

/// What running a `tt config` subcommand on the current settings `cfg`
/// answers: the message to print and, for `set`, the settings to store.
pub open spec fn run_spec(action: ConfigAction, cfg: Config) -> Result<(Seq<char>, Option<Config>), ConfigErrorModel> {
    match action {
        ConfigAction::List => Ok((list_text(cfg), None)),
        ConfigAction::SetKey { args } => match parse_set_spec(strings_view(args@)) {
            Err(e) => Err(e),
            Ok((key, value)) => match set_spec(cfg, key, value) {
                Err(e) => Err(e),
                Ok(c) => Ok((key + "="@ + bool_text(c.integrate_with_task), Some(c))),
            },
        },
    }
}

/// Runs a parsed `tt config` subcommand against the settings `cfg` that were
/// read from the settings file. On success it gives the message to print and,
/// for `set`, the validated settings to write back; nothing invalid is ever
/// handed back for writing.
pub fn run_on(action: &ConfigAction, cfg: Config) -> (r: Result<(String, Option<Config>), ConfigError>)
    ensures
        match (r, run_spec(*action, cfg)) {
            (Ok((m, c)), Ok((sm, sc))) => m@ == sm && c == sc,
            (Err(e), Err(se)) => e@ == se,
            _ => false,
        },
{
    match action {
        ConfigAction::List => {
            let mut msg = String::from_str(KEY_INTEGRATE_WITH_TASK);
            msg.append("=");
            let b = bool_string(cfg.integrate_with_task);
            msg.append(b.as_str());
            Ok((msg, None))
        },
        ConfigAction::SetKey { args } => {
            let (key, value) = match parse_set(args.as_slice()) {
                Ok(kv) => kv,
                Err(e) => {
                    return Err(e);
                },
            };
            let mut c = cfg;
            match c.set(key.as_str(), value.as_str()) {
                Ok(()) => {},
                Err(e) => {
                    return Err(e);
                },
            }
            let mut msg = key;
            msg.append("=");
            let normalized = bool_string(c.integrate_with_task);
            msg.append(normalized.as_str());
            Ok((msg, Some(c)))
        },
    }
}

/// Read after write: once `set` succeeds, listing the stored settings shows
/// the value that was set, and a failed `set` hands nothing back to store.
pub proof fn law_set_then_list(cfg: Config, args: Vec<String>)
    ensures
        match run_spec(ConfigAction::SetKey { args }, cfg) {
            Ok((msg, stored)) => stored matches Some(c) && run_spec(ConfigAction::List, c) == Ok::<
                (Seq<char>, Option<Config>),
                ConfigErrorModel,
            >((msg, None)),
            Err(_) => true,
        },
{
}

/// The last write wins: setting a key twice is the same as setting it to
/// the second value, whatever the first was.
pub proof fn law_set_last_wins(cfg: Config, key: Seq<char>, v1: Seq<char>, v2: Seq<char>)
    requires
        set_spec(cfg, key, v1) is Ok,
    ensures
        set_spec(set_spec(cfg, key, v1)->Ok_0, key, v2) == set_spec(cfg, key, v2),
{
}

/// The key's text holds no `=` and no surrounding whitespace.
proof fn lemma_key_plain()
    ensures
        forall|i: int| 0 <= i < KEY_INTEGRATE_WITH_TASK@.len() ==> #[trigger] KEY_INTEGRATE_WITH_TASK@[i] != '=',
        trim(KEY_INTEGRATE_WITH_TASK@) == KEY_INTEGRATE_WITH_TASK@,
        split_at_char(KEY_INTEGRATE_WITH_TASK@, '=') is None,
{
    reveal_strlit("integrate_with_task");
    let k = KEY_INTEGRATE_WITH_TASK@;
    assert(k.len() == 19);
    assert(!is_ws(k[0]));
    assert(trim_start(k) == k);
    assert(!is_ws(k.last()));
    assert(trim_end(k) == k);
}

/// Setting the key to any accepted spelling of a boolean `b`, written
/// `key=value` or `key value`, stores `b` and answers `key=b` with the value
/// normalised to `true` or `false`; listing the stored settings answers the
/// same line.
pub proof fn law_set_normalises_value(cfg: Config, args: Vec<String>, v: Seq<char>, b: bool)
    requires
        bool_spec(v) == Some(b),
        strings_view(args@) == seq![KEY_INTEGRATE_WITH_TASK@ + "="@ + v] || strings_view(args@) == seq![
            KEY_INTEGRATE_WITH_TASK@,
            v,
        ],
    ensures
        run_spec(ConfigAction::SetKey { args }, cfg) == Ok::<(Seq<char>, Option<Config>), ConfigErrorModel>(
            (list_text(Config { integrate_with_task: b }), Some(Config { integrate_with_task: b })),
        ),
        run_spec(ConfigAction::List, Config { integrate_with_task: b }) == Ok::<
            (Seq<char>, Option<Config>),
            ConfigErrorModel,
        >((list_text(Config { integrate_with_task: b }), None)),
{
    reveal_strlit("=");
    lemma_key_plain();
    law_trim_idempotent(v);
    let key = KEY_INTEGRATE_WITH_TASK@;
    let rest = strings_view(args@);
    if rest == seq![key + "="@ + v] {
        let w = key + "="@ + v;
        let n = key.len() as int;
        assert(w[n] == '=');
        assert forall|k: int| 0 <= k < n implies #[trigger] w[k] != '=' by {
            assert(w[k] == key[k]);
        }
        let i = choose|i: int| 0 <= i < w.len() && #[trigger] w[i] == '=' && forall|k: int| 0 <= k < i ==> #[trigger] w[k] != '=';
        assert(i == n) by {
            if i < n {
                assert(w[i] == key[i]);
            } else if i > n {
                assert(w[n] != '=');
            }
        }
        assert(w.subrange(0, n) =~= key);
        assert(w.subrange(n + 1, w.len() as int) =~= v);
        assert(split_at_char(w, '=') == Some((key, v)));
        assert(rest[0] == w);
        assert(parse_set_spec(rest) == Ok::<(Seq<char>, Seq<char>), ConfigErrorModel>((key, trim(v))));
    } else {
        assert(rest[0] == key);
        assert(rest.subrange(1, rest.len() as int) =~= seq![v]);
        assert(join_spaces(seq![v]) == v);
        assert(parse_set_spec(rest) == Ok::<(Seq<char>, Seq<char>), ConfigErrorModel>((key, trim(v))));
    }
    assert(bool_spec(trim(v)) == bool_spec(v));
}

} // verus!
