//! Keyboard input: what each key does in each input mode.

use vstd::prelude::*;

use super::commands::{duplicate_msg, executed};
use super::timers::added;
use super::{
    add_excluded, filtered, has_name, same_but_timers, switch_timers, App, Mode,
};
use crate::command::{parse_spec, Command};
use crate::duration::{parse_duration, parse_duration_spec};
use crate::task_integration::TaskSource;
use crate::text::{chars_of, push_all, push_char, string_of, sub_chars, trim, trimmed};

verus! {

/// A key, as far as the application tells keys apart.
#[derive(Debug, Clone, Copy, PartialEq, Eq, Structural)]
pub enum KeyCode {
    Char(char),
    Enter,
    Esc,
    Backspace,
    Up,
    Down,
    Other,
}

/// Whether a key went down, repeated or went up.
#[derive(Debug, Clone, Copy, PartialEq, Eq, Structural)]
pub enum KeyKind {
    Press,
    Repeat,
    Release,
}

/// A key event: the key, whether Control was held, and its kind.
#[derive(Debug, Clone, Copy, PartialEq, Eq, Structural)]
pub struct KeyEvent {
    pub code: KeyCode,
    pub ctrl: bool,
    pub kind: KeyKind,
}

/// A terminal event.
#[derive(Debug, Clone, Copy, PartialEq, Eq, Structural)]
pub enum Event {
    Key(KeyEvent),
    Other,
}

/// The key of an event, when it is a key press.
pub open spec fn pressed(ev: Event) -> Option<KeyEvent> {
    match ev {
        Event::Key(k) => if k.kind == KeyKind::Press {
            Some(k)
        } else {
            None
        },
        Event::Other => None,
    }
}

/// The key of an event, when it is a key press; releases, repeats and
/// other events give none.
pub fn key_press(ev: &Event) -> (r: Option<KeyEvent>)
    ensures
        r == pressed(*ev),
{
    match ev {
        Event::Key(k) => {
            if k.kind == KeyKind::Press {
                Some(*k)
            } else {
                None
            }
        },
        Event::Other => None,
    }
}

/// A buffer after backspace: the last character gone, if there is one.
pub open spec fn popped(s: Seq<char>) -> Seq<char> {
    if s.len() == 0 {
        s
    } else {
        s.drop_last()
    }
}

/// Removes the last character of a string, if there is one.
pub fn pop_char(s: &mut String)
    ensures
        final(s)@ == popped(old(s)@),
{
    let v = chars_of(s.as_str());
    if v.len() > 0 {
        let w = sub_chars(v.as_slice(), 0, v.len() - 1);
        *s = string_of(w.as_slice());
    }
}

/// The error shown for a duration that does not parse.
pub open spec fn invalid_msg(m: Seq<char>) -> Seq<char> {
    "Invalid: "@ + m
}

/// `b` is `a` after switching to timer `id` at `now`.
pub open spec fn switched<S>(a: App<S>, b: App<S>, id: u32, now: u64) -> bool {
    &&& b.timers@ == switch_timers(a.timers@, a.active_id, id, now)
    &&& b.active_id == Some(id)
    &&& b.next_id == a.next_id
    &&& b.save_requested
    &&& same_but_timers(a, b)
}

/// What key `key` does at `now` in the normal mode: Enter runs the command
/// typed (and empties the bar), Ctrl-C quits, Esc empties the bar,
/// Backspace deletes a character, other characters are typed.
pub open spec fn normal_key<S: TaskSource>(a: App<S>, b: App<S>, key: KeyEvent, now: u64) -> bool {
    match key.code {
        KeyCode::Enter => exists|c: App<S>, cmd: Command|
            #![trigger executed(c, b, cmd, now)]
            c == App { input_buffer: c.input_buffer, ..a } && c.input_buffer@.len() == 0 && cmd@
                == parse_spec(a.input_buffer@) && executed(c, b, cmd, now),
        KeyCode::Char(ch) => if ch == 'c' && key.ctrl {
            b == App { should_quit: true, ..a }
        } else {
            b == App { input_buffer: b.input_buffer, ..a } && b.input_buffer@ == a.input_buffer@.push(ch)
        },
        KeyCode::Esc => b == App { input_buffer: b.input_buffer, ..a } && b.input_buffer@.len() == 0,
        KeyCode::Backspace => b == App { input_buffer: b.input_buffer, ..a } && b.input_buffer@
            == popped(a.input_buffer@),
        _ => b == a,
    }
}

/// What key `key` does at `now` in the timer picker: Esc closes it, Enter
/// switches to the highlighted timer and closes it, Up and Down move the
/// highlight within the filtered list, Backspace and characters edit the
/// filter and move the highlight to the top.
pub open spec fn selector_key<S>(a: App<S>, b: App<S>, key: KeyEvent, now: u64) -> bool {
    let f = filtered(a.timers@, a.selector_filter@);
    match key.code {
        KeyCode::Esc => b == App { mode: Mode::Normal, ..a },
        KeyCode::Enter => if a.selector_index < f.len() {
            switched(App { mode: Mode::Normal, ..a }, b, f[a.selector_index as int].id, now)
        } else {
            b == a
        },
        KeyCode::Up => b == App {
            selector_index: if a.selector_index == 0 {
                0
            } else {
                (a.selector_index - 1) as usize
            },
            ..a
        },
        KeyCode::Down => b == App {
            selector_index: if a.selector_index + 1 < f.len() {
                (a.selector_index + 1) as usize
            } else {
                a.selector_index
            },
            ..a
        },
        KeyCode::Backspace => b == App { selector_filter: b.selector_filter, selector_index: 0, ..a }
            && b.selector_filter@ == popped(a.selector_filter@),
        KeyCode::Char(ch) => b == App { selector_filter: b.selector_filter, selector_index: 0, ..a }
            && b.selector_filter@ == a.selector_filter@.push(ch),
        _ => b == a,
    }
}

/// What key `key` does at `now` while a duration is asked for the timer
/// `name`: Esc cancels, Enter adds the timer when the duration parses (as
/// `tt <duration> <name>` would) and otherwise shows the error, Backspace and
/// characters edit the answer.
pub open spec fn time_prompt_key<S: TaskSource>(a: App<S>, b: App<S>, name: String, key: KeyEvent, now: u64) -> bool {
    match key.code {
        KeyCode::Esc => b == App {
            mode: Mode::Normal,
            time_prompt_buffer: b.time_prompt_buffer,
            time_prompt_error: None,
            ..a
        } && b.time_prompt_buffer@.len() == 0,
        KeyCode::Enter => match parse_duration_spec(a.time_prompt_buffer@) {
            Ok(ms) => exists|c: App<S>|
                #![trigger executed(c, b, Command::NewTimer(ms as i64, name), now)]
                c == App {
                    mode: Mode::Normal,
                    time_prompt_buffer: c.time_prompt_buffer,
                    time_prompt_error: None,
                    ..a
                } && c.time_prompt_buffer@.len() == 0 && executed(
                    c,
                    b,
                    Command::NewTimer(ms as i64, name),
                    now,
                ),
            Err(m) => {
                &&& b == App {
                    time_prompt_buffer: b.time_prompt_buffer,
                    time_prompt_error: b.time_prompt_error,
                    ..a
                }
                &&& b.time_prompt_buffer@.len() == 0
                &&& b.time_prompt_error matches Some(e) && e@ == invalid_msg(m)
            },
        },
        KeyCode::Backspace => b == App { time_prompt_buffer: b.time_prompt_buffer, ..a }
            && b.time_prompt_buffer@ == popped(a.time_prompt_buffer@),
        KeyCode::Char(ch) => b == App { time_prompt_buffer: b.time_prompt_buffer, ..a }
            && b.time_prompt_buffer@ == a.time_prompt_buffer@.push(ch),
        _ => b == a,
    }
}

/// What key `key` does at `now` while a name is asked for a timer of `ms`:
/// Esc cancels; Enter adds the timer under the trimmed name (nothing when it
/// is blank) and closes the prompt, or, when the name is taken, keeps the
/// prompt open with the name and an error; Backspace and characters edit the
/// answer and clear the error.
pub open spec fn name_prompt_key<S>(a: App<S>, b: App<S>, ms: i64, key: KeyEvent, now: u64) -> bool {
    match key.code {
        KeyCode::Esc => b == App {
            mode: Mode::Normal,
            name_prompt_buffer: b.name_prompt_buffer,
            name_prompt_error: None,
            ..a
        } && b.name_prompt_buffer@.len() == 0,
        KeyCode::Enter => {
            let name = trim(a.name_prompt_buffer@);
            if name.len() == 0 {
                b == App {
                    mode: Mode::Normal,
                    name_prompt_buffer: b.name_prompt_buffer,
                    name_prompt_error: None,
                    ..a
                } && b.name_prompt_buffer@.len() == 0
            } else if has_name(a.timers@, name, add_excluded(a.timers@, a.active_id)) {
                &&& b == App {
                    name_prompt_buffer: b.name_prompt_buffer,
                    name_prompt_error: b.name_prompt_error,
                    ..a
                }
                &&& b.name_prompt_buffer@ == name
                &&& b.name_prompt_error matches Some(e) && e@ == duplicate_msg()
            } else {
                exists|c: App<S>, d: App<S>, nm: String|
                    #![trigger added(c, d, ms, nm, now)]
                    c == App { name_prompt_buffer: c.name_prompt_buffer, ..a }
                        && c.name_prompt_buffer@.len() == 0 && nm@ == name && added(
                        c,
                        d,
                        ms,
                        nm,
                        now,
                    ) && b == App { mode: Mode::Normal, name_prompt_error: None, ..d }
            }
        },
        KeyCode::Backspace => b == App {
            name_prompt_buffer: b.name_prompt_buffer,
            name_prompt_error: None,
            ..a
        } && b.name_prompt_buffer@ == popped(a.name_prompt_buffer@),
        KeyCode::Char(ch) => b == App {
            name_prompt_buffer: b.name_prompt_buffer,
            name_prompt_error: None,
            ..a
        } && b.name_prompt_buffer@ == a.name_prompt_buffer@.push(ch),
        _ => b == a,
    }
}

/// `b` is `a` after event `ev` at `now`: only key presses do anything, and
/// what they do depends on the input mode.
pub open spec fn handled<S: TaskSource>(a: App<S>, b: App<S>, ev: Event, now: u64) -> bool {
    match pressed(ev) {
        None => b == a,
        Some(key) => match a.mode {
            Mode::Normal => normal_key(a, b, key, now),
            Mode::Selector => selector_key(a, b, key, now),
            Mode::TimePrompt(name) => time_prompt_key(a, b, name, key, now),
            Mode::NamePrompt(ms) => name_prompt_key(a, b, ms, key, now),
        },
    }
}

impl<S: TaskSource> App<S> {
    /// Handles a terminal event at `now`.
    pub fn handle_event(&mut self, ev: &Event, now: u64)
        ensures
            handled(*old(self), *final(self), *ev, now),
    {
        match &self.mode {
            Mode::Normal => self.handle_normal_event(ev, now),
            Mode::Selector => self.handle_selector_event(ev, now),
            Mode::TimePrompt(_) => self.handle_time_prompt_event(ev, now),
            Mode::NamePrompt(_) => self.handle_name_prompt_event(ev, now),
        }
    }

    fn handle_normal_event(&mut self, ev: &Event, now: u64)
        requires
            old(self).mode == Mode::Normal,
        ensures
            match pressed(*ev) {
                None => *final(self) == *old(self),
                Some(key) => normal_key(*old(self), *final(self), key, now),
            },
    {
        let key = match key_press(ev) {
            Some(k) => k,
            None => {
                return;
            },
        };
        match key.code {
            KeyCode::Enter => {
                let mut input = String::new();
                std::mem::swap(&mut input, &mut self.input_buffer);
                let ghost c = *self;
                let cmd = Command::parse(input.as_str());
                self.execute_command(cmd, now);
                assert(executed(c, *self, cmd, now));
            },
            KeyCode::Char(ch) => {
                if ch == 'c' && key.ctrl {
                    self.should_quit = true;
                } else {
                    push_char(&mut self.input_buffer, ch);
                }
            },
            KeyCode::Esc => {
                self.input_buffer = String::new();
            },
            KeyCode::Backspace => {
                pop_char(&mut self.input_buffer);
            },
            _ => {},
        }
    }

    fn handle_selector_event(&mut self, ev: &Event, now: u64)
        requires
            old(self).mode == Mode::Selector,
        ensures
            match pressed(*ev) {
                None => *final(self) == *old(self),
                Some(key) => selector_key(*old(self), *final(self), key, now),
            },
    {
        let key = match key_press(ev) {
            Some(k) => k,
            None => {
                return;
            },
        };
        match key.code {
            KeyCode::Esc => {
                self.mode = Mode::Normal;
            },
            KeyCode::Enter => {
                let selected = {
                    let f = self.filtered_timers();
                    if self.selector_index < f.len() {
                        Some(f[self.selector_index].id)
                    } else {
                        None
                    }
                };
                if let Some(id) = selected {
                    self.mode = Mode::Normal;
                    self.switch_to(id, now);
                }
            },
            KeyCode::Up => {
                if self.selector_index > 0 {
                    self.selector_index = self.selector_index - 1;
                }
            },
            KeyCode::Down => {
                let len = self.filtered_timers().len();
                let max_index = if len > 0 {
                    len - 1
                } else {
                    0
                };
                if self.selector_index < max_index {
                    self.selector_index = self.selector_index + 1;
                }
            },
            KeyCode::Backspace => {
                pop_char(&mut self.selector_filter);
                self.selector_index = 0;
            },
            KeyCode::Char(ch) => {
                push_char(&mut self.selector_filter, ch);
                self.selector_index = 0;
            },
            _ => {},
        }
    }

    fn handle_time_prompt_event(&mut self, ev: &Event, now: u64)
        requires
            old(self).mode is TimePrompt,
        ensures
            match pressed(*ev) {
                None => *final(self) == *old(self),
                Some(key) => time_prompt_key(
                    *old(self),
                    *final(self),
                    old(self).mode->TimePrompt_0,
                    key,
                    now,
                ),
            },
    {
        let key = match key_press(ev) {
            Some(k) => k,
            None => {
                return;
            },
        };
        match key.code {
            KeyCode::Esc => {
                self.mode = Mode::Normal;
                self.time_prompt_buffer = String::new();
                self.time_prompt_error = None;
            },
            KeyCode::Enter => {
                match parse_duration(self.time_prompt_buffer.as_str()) {
                    Ok(ms) => {
                        self.time_prompt_buffer = String::new();
                        self.time_prompt_error = None;
                        let mut mode = Mode::Normal;
                        std::mem::swap(&mut mode, &mut self.mode);
                        let name = match mode {
                            Mode::TimePrompt(name) => name,
                            _ => String::from_str("Timer"),
                        };
                        let ghost c = *self;
                        self.execute_command(Command::NewTimer(ms, name), now);
                        assert(executed(c, *self, Command::NewTimer(ms, name), now));
                    },
                    Err(e) => {
                        let mut msg: Vec<char> = Vec::new();
                        let prefix = chars_of("Invalid: ");
                        push_all(&mut msg, prefix.as_slice());
                        let ev = chars_of(e.0.as_str());
                        push_all(&mut msg, ev.as_slice());
                        proof {
                            reveal_strlit("Invalid: ");
                        }
                        self.time_prompt_error = Some(string_of(msg.as_slice()));
                        self.time_prompt_buffer = String::new();
                    },
                }
            },
            KeyCode::Backspace => {
                pop_char(&mut self.time_prompt_buffer);
            },
            KeyCode::Char(ch) => {
                push_char(&mut self.time_prompt_buffer, ch);
            },
            _ => {},
        }
    }

    fn handle_name_prompt_event(&mut self, ev: &Event, now: u64)
        requires
            old(self).mode is NamePrompt,
        ensures
            match pressed(*ev) {
                None => *final(self) == *old(self),
                Some(key) => name_prompt_key(
                    *old(self),
                    *final(self),
                    old(self).mode->NamePrompt_0,
                    key,
                    now,
                ),
            },
    {
        let key = match key_press(ev) {
            Some(k) => k,
            None => {
                return;
            },
        };
        match key.code {
            KeyCode::Esc => {
                self.mode = Mode::Normal;
                self.name_prompt_buffer = String::new();
                self.name_prompt_error = None;
            },
            KeyCode::Enter => {
                let ms = match &self.mode {
                    Mode::NamePrompt(ms) => *ms,
                    _ => 0,
                };
                let mut name = String::new();
                std::mem::swap(&mut name, &mut self.name_prompt_buffer);
                let nv = chars_of(name.as_str());
                let tv = trimmed(nv.as_slice());
                if tv.len() > 0 {
                    let trimmed_name = string_of(tv.as_slice());
                    let ghost c = *self;
                    match self.add_timer(ms, trimmed_name, now) {
                        Ok(()) => {
                            let ghost d = *self;
                            assert(added(c, d, ms, trimmed_name, now));
                        },
                        Err(super::AddTimerError::DuplicateName(n)) => {
                            self.name_prompt_buffer = n;
                            self.name_prompt_error = Some(
                                String::from_str(
                                    "Timer with this name already exists. Enter a different name.",
                                ),
                            );
                            return;
                        },
                    }
                }
                self.mode = Mode::Normal;
                self.name_prompt_error = None;
            },
            KeyCode::Backspace => {
                pop_char(&mut self.name_prompt_buffer);
                self.name_prompt_error = None;
            },
            KeyCode::Char(ch) => {
                push_char(&mut self.name_prompt_buffer, ch);
                self.name_prompt_error = None;
            },
            _ => {},
        }
    }
}

} // verus!
