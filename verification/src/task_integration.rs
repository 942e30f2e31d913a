//! The bridge to the external `ttask` tool: its rows, parsing of its
//! markdown task list, and the interface through which the application reads
//! and writes tasks. Running the tool itself is the caller's part.

use vstd::prelude::*;

use crate::duration::is_digit;
use crate::text::{
    chars_eq_str, chars_of, eq_ic, eq_ignore_case_str, lower_all, string_of, sub_chars,
    to_lower_all, trim, trimmed, views,
};

verus! {

/// A task surfaced by the `ttask` tool, reduced to what a timer needs.
#[derive(Debug, Clone, PartialEq, Eq)]
pub struct TaskRow {
    pub id: u32,
    pub est_secs: i64,
    pub text: String,
}

/// The mathematical value of a [`TaskRow`].
pub struct TaskRowModel {
    pub id: u32,
    pub est_secs: i64,
    pub text: Seq<char>,
}

impl View for TaskRow {
    type V = TaskRowModel;

    open spec fn view(&self) -> TaskRowModel {
        TaskRowModel { id: self.id, est_secs: self.est_secs, text: self.text@ }
    }
}

/// The views of a sequence of rows.
pub open spec fn rows_view(v: Seq<TaskRow>) -> Seq<TaskRowModel> {
    v.map_values(|r: TaskRow| r@)
}

/// The rows of a listing, when the tool could be read.
pub open spec fn listing_of(r: Option<Vec<TaskRow>>) -> Option<Seq<TaskRowModel>> {
    match r {
        Some(v) => Some(rows_view(v@)),
        None => None,
    }
}

/// A write-back asked of a task source: completing or soft-deleting a task.
#[derive(Debug, Clone, Copy, PartialEq, Eq, Structural)]
pub enum TaskWrite {
    Complete(u32),
    Delete(u32),
}

/// Where the application reads the active tasks and writes completions and
/// deletions back. What these calls answer is decided outside the library.
/// A source may be described by its own state: its listing, the writes asked
/// of it and those that took effect. One that is says so with
/// `keeps_account`; its listing is then `listing()` and its writes keep the
/// accounts as `complete` and `delete` state. One that is not (a bridge that
/// only runs an outside tool) promises nothing of them.
pub trait TaskSource {
    /// Whether this source is described by the spec functions below.
    open spec fn keeps_account(&self) -> bool {
        false
    }

    /// What `list_active` answers, for a source that keeps account.
    open spec fn listing(&self) -> Option<Seq<TaskRowModel>> {
        None
    }

    /// Every write asked of the source so far, in order.
    open spec fn writes(&self) -> Seq<TaskWrite> {
        Seq::empty()
    }

    /// The tasks completed so far, in order.
    open spec fn completions(&self) -> Seq<u32> {
        Seq::empty()
    }

    /// The tasks soft-deleted so far, in order.
    open spec fn deletions(&self) -> Seq<u32> {
        Seq::empty()
    }

    /// The active tasks. `None` means the tool could not be reached — distinct
    /// from `Some(vec![])` (it ran, no tasks). Callers must not reconcile or
    /// remove timers on `None`.
    fn list_active(&self) -> (r: Option<Vec<TaskRow>>)
        ensures
            self.keeps_account() ==> listing_of(r) == self.listing(),
    ;

    /// Marks the task complete. A source that keeps account records the
    /// write, and on success counts the task as completed.
    fn complete(&mut self, id: u32) -> (r: Result<(), String>)
        ensures
            old(self).keeps_account() ==> {
                &&& final(self).keeps_account()
                &&& final(self).writes() == old(self).writes().push(TaskWrite::Complete(id))
                &&& r is Ok ==> final(self).completions() == old(self).completions().push(id)
                &&& r is Err ==> final(self).completions() == old(self).completions()
                &&& final(self).deletions() == old(self).deletions()
            },
    ;

    /// Soft-deletes the task. A source that keeps account records the write,
    /// and on success counts the task as deleted.
    fn delete(&mut self, id: u32) -> (r: Result<(), String>)
        ensures
            old(self).keeps_account() ==> {
                &&& final(self).keeps_account()
                &&& final(self).writes() == old(self).writes().push(TaskWrite::Delete(id))
                &&& r is Ok ==> final(self).deletions() == old(self).deletions().push(id)
                &&& r is Err ==> final(self).deletions() == old(self).deletions()
                &&& final(self).completions() == old(self).completions()
            },
    ;
}

/// The pieces of `s` between occurrences of `c` (`str::split`).
pub open spec fn split_char(s: Seq<char>, c: char) -> Seq<Seq<char>>
    decreases s.len(),
{
    if s.len() == 0 {
        seq![seq![]]
    } else {
        let p = split_char(s.drop_last(), c);
        if s.last() == c {
            p.push(seq![])
        } else {
            p.update(p.len() - 1, p.last().push(s.last()))
        }
    }
}

proof fn lemma_split_char_nonempty(s: Seq<char>, c: char)
    ensures
        split_char(s, c).len() >= 1,
    decreases s.len(),
{
    if s.len() > 0 {
        lemma_split_char_nonempty(s.drop_last(), c);
    }
}

/// Splits `v` at every `c`.
pub fn split_on(v: &[char], c: char) -> (r: Vec<Vec<char>>)
    ensures
        views(r@) == split_char(v@, c),
{
    let mut r: Vec<Vec<char>> = Vec::new();
    r.push(Vec::new());
    assert(views(r@) =~= split_char(v@.take(0), c));
    let n = v.len();
    for i in 0..n
        invariant
            n == v@.len(),
            views(r@) == split_char(v@.take(i as int), c),
    {
        let ghost pre = v@.take(i as int);
        let ghost cur = v@.take(i + 1);
        assert(cur.drop_last() =~= pre);
        assert(cur.last() == v@[i as int]);
        proof {
            lemma_split_char_nonempty(pre, c);
        }
        if v[i] == c {
            r.push(Vec::new());
            assert(views(r@) =~= split_char(pre, c).push(seq![]));
        } else {
            let mut w = r.pop().unwrap();
            w.push(v[i]);
            r.push(w);
            let ghost p = split_char(pre, c);
            assert(views(r@) =~= p.update(p.len() - 1, p.last().push(v@[i as int])));
        }
    }
    assert(v@.take(n as int) =~= v@);
    r
}

/// The cells of a markdown table row: split on unescaped `|`, each cell
/// trimmed, with `\|` unescaped to `|`. `cells` are the cells found so far and
/// `cur` the cell being read.
pub open spec fn md_scan(s: Seq<char>, cells: Seq<Seq<char>>, cur: Seq<char>) -> Seq<Seq<char>>
    decreases s.len(),
{
    if s.len() == 0 {
        cells.push(trim(cur))
    } else if s[0] == '\\' && s.len() > 1 && s[1] == '|' {
        md_scan(s.subrange(2, s.len() as int), cells, cur.push('|'))
    } else if s[0] == '|' {
        md_scan(s.drop_first(), cells.push(trim(cur)), seq![])
    } else {
        md_scan(s.drop_first(), cells, cur.push(s[0]))
    }
}

/// The cells of a markdown table row.
pub open spec fn md_cells(row: Seq<char>) -> Seq<Seq<char>> {
    md_scan(row, seq![], seq![])
}

/// Splits a markdown table row on unescaped `|`, unescaping `\|` back to `|`
/// in the cells (the `ttask` tool escapes pipes inside descriptions).
pub fn split_md_row(row: &[char]) -> (r: Vec<Vec<char>>)
    ensures
        views(r@) == md_cells(row@),
{
    let mut cells: Vec<Vec<char>> = Vec::new();
    let mut cur: Vec<char> = Vec::new();
    let n = row.len();
    let mut i: usize = 0;
    assert(row@.subrange(0, n as int) =~= row@);
    assert(views(cells@) =~= seq![]);
    assert(cur@ =~= seq![]);
    while i < n
        invariant
            i <= n == row@.len(),
            md_scan(row@.subrange(i as int, n as int), views(cells@), cur@) == md_cells(row@),
        decreases n - i,
    {
        let ghost s = row@.subrange(i as int, n as int);
        let c = row[i];
        if c == '\\' && i + 1 < n && row[i + 1] == '|' {
            cur.push('|');
            assert(s.subrange(2, s.len() as int) =~= row@.subrange(i + 2, n as int));
            i = i + 2;
        } else if c == '|' {
            let t = trimmed(cur.as_slice());
            let ghost before = views(cells@);
            cells.push(t);
            cur = Vec::new();
            assert(views(cells@) =~= before.push(t@));
            assert(cur@ =~= seq![]);
            assert(s.drop_first() =~= row@.subrange(i + 1, n as int));
            i = i + 1;
        } else {
            cur.push(c);
            assert(s.drop_first() =~= row@.subrange(i + 1, n as int));
            i = i + 1;
        }
    }
    let t = trimmed(cur.as_slice());
    let ghost before = views(cells@);
    cells.push(t);
    assert(views(cells@) =~= before.push(t@));
    cells
}

/// Value of a string of ASCII digits.
pub open spec fn dval(s: Seq<char>) -> nat
    decreases s.len(),
{
    if s.len() == 0 {
        0
    } else {
        dval(s.drop_last()) * 10 + crate::duration::digit_val(s.last())
    }
}

pub open spec fn all_digits(s: Seq<char>) -> bool {
    forall|i: int| 0 <= i < s.len() ==> is_digit(#[trigger] s[i])
}

/// An optional sign (only `+` when `signed` is false) followed by digits, as
/// integer `from_str` reads it: the sign, and the digits.
pub open spec fn sign_split(s: Seq<char>, signed: bool) -> (bool, Seq<char>) {
    if s.len() > 0 && s[0] == '+' {
        (false, s.drop_first())
    } else if signed && s.len() > 0 && s[0] == '-' {
        (true, s.drop_first())
    } else {
        (false, s)
    }
}

/// `u32::from_str`: an optional `+` and at least one digit, in range.
pub open spec fn parse_u32_spec(s: Seq<char>) -> Option<u32> {
    let body = sign_split(s, false).1;
    if body.len() > 0 && all_digits(body) && dval(body) <= u32::MAX {
        Some(dval(body) as u32)
    } else {
        None
    }
}

/// `i64::from_str`: an optional `+` or `-` and at least one digit, in range.
pub open spec fn parse_i64_spec(s: Seq<char>) -> Option<i64> {
    let (neg, body) = sign_split(s, true);
    if body.len() > 0 && all_digits(body) {
        let v: int = if neg {
            -(dval(body) as int)
        } else {
            dval(body) as int
        };
        if i64::MIN <= v && v <= i64::MAX {
            Some(v as i64)
        } else {
            None
        }
    } else {
        None
    }
}

proof fn lemma_dval_mono(s: Seq<char>, i: int)
    requires
        0 <= i <= s.len(),
    ensures
        dval(s.take(i)) <= dval(s),
    decreases s.len() - i,
{
    if i < s.len() {
        assert(s.drop_last().take(i) =~= s.take(i));
        lemma_dval_mono(s.drop_last(), i);
    } else {
        assert(s.take(i) =~= s);
    }
}

/// Reads the digits of `v[from..]` with a cap: the value when it is at most
/// `bound`, else `None`; `ok` is false when there is no digit or a non-digit.
fn read_digits(v: &[char], from: usize, bound: u128) -> (r: (bool, Option<u128>))
    requires
        from <= v@.len(),
        bound < 0x1_0000_0000_0000_0000u128,
    ensures
        r.0 == (from < v@.len() && all_digits(v@.subrange(from as int, v@.len() as int))),
        r.0 ==> (r.1 matches Some(x) ==> x as nat == dval(v@.subrange(from as int, v@.len() as int))),
        r.0 ==> (r.1 is Some <==> dval(v@.subrange(from as int, v@.len() as int)) <= bound),
{
    let n = v.len();
    let ghost body = v@.subrange(from as int, n as int);
    if from >= n {
        return (false, None);
    }
    let mut acc: u128 = 0;
    let mut over = false;
    let mut i = from;
    while i < n
        invariant
            from <= i <= n == v@.len(),
            bound < 0x1_0000_0000_0000_0000u128,
            body == v@.subrange(from as int, n as int),
            all_digits(body.take(i - from)),
            over <==> dval(body.take(i - from)) > bound,
            !over ==> acc as nat == dval(body.take(i - from)),
        decreases n - i,
    {
        let c = v[i];
        if !('0' <= c && c <= '9') {
            assert(!all_digits(body)) by {
                assert(body[i - from] == c);
            }
            return (false, None);
        }
        let ghost pre = body.take(i - from);
        let ghost cur = body.take(i - from + 1);
        assert(cur.drop_last() =~= pre);
        assert(cur.last() == c);
        if !over {
            let next = acc * 10 + (c as u32 - '0' as u32) as u128;
            if next > bound {
                over = true;
            } else {
                acc = next;
            }
        }
        assert forall|k: int| 0 <= k < cur.len() implies is_digit(#[trigger] cur[k]) by {
            if k < pre.len() {
                assert(cur[k] == pre[k]);
            }
        }
        i = i + 1;
    }
    assert(body.take(n - from) =~= body);
    (true, if over { None } else { Some(acc) })
}

/// `u32::from_str` on characters.
pub fn parse_u32(v: &[char]) -> (r: Option<u32>)
    ensures
        r == parse_u32_spec(v@),
{
    let from: usize = if v.len() > 0 && v[0] == '+' { 1 } else { 0 };
    assert(sign_split(v@, false).1 =~= v@.subrange(from as int, v@.len() as int));
    let (ok, val) = read_digits(v, from, 0xffff_ffff);
    if !ok {
        return None;
    }
    match val {
        Some(x) => Some(x as u32),
        None => None,
    }
}

/// `i64::from_str` on characters.
pub fn parse_i64(v: &[char]) -> (r: Option<i64>)
    ensures
        r == parse_i64_spec(v@),
{
    let neg = v.len() > 0 && v[0] == '-';
    let from: usize = if v.len() > 0 && (v[0] == '+' || v[0] == '-') { 1 } else { 0 };
    assert(sign_split(v@, true).1 =~= v@.subrange(from as int, v@.len() as int));
    assert(sign_split(v@, true).0 == neg);
    let bound: u128 = if neg { 0x8000_0000_0000_0000 } else { 0x7fff_ffff_ffff_ffff };
    let (ok, val) = read_digits(v, from, bound);
    if !ok {
        return None;
    }
    match val {
        Some(x) => if neg {
            Some((-(x as i128)) as i64)
        } else {
            Some(x as i64)
        },
        None => None,
    }
}

/// The number and the seconds per unit of an estimate `s` (already trimmed
/// and lowercased): a final `d`, `h`, `m` or `s`, or a bare number (seconds).
pub open spec fn est_split(s: Seq<char>) -> (Seq<char>, int) {
    if s.len() > 0 && s.last() == 'd' {
        (s.drop_last(), 86_400)
    } else if s.len() > 0 && s.last() == 'h' {
        (s.drop_last(), 3_600)
    } else if s.len() > 0 && s.last() == 'm' {
        (s.drop_last(), 60)
    } else if s.len() > 0 && s.last() == 's' {
        (s.drop_last(), 1)
    } else {
        (s, 1)
    }
}

/// The estimate in seconds as an unbounded integer: `None` when the text is
/// empty or its number does not read as an `i64`.
pub open spec fn est_value(input: Seq<char>) -> Option<int> {
    let s = lower_all(trim(input));
    if s.len() == 0 {
        None
    } else {
        let (num, mult) = est_split(s);
        match parse_i64_spec(trim(num)) {
            Some(v) => Some(v * mult),
            None => None,
        }
    }
}

/// The estimate's seconds fit in an `i64`: the number times its unit is not
/// checked, so parsing requires it.
pub open spec fn est_in_range(input: Seq<char>) -> bool {
    est_value(input) matches Some(x) ==> i64::MIN <= x <= i64::MAX
}

/// Parses an estimate as the `ttask` tool emits it (`30m`, `1h`, `2d`, `90s`,
/// or a bare number of seconds) into seconds.
pub fn parse_est(s: &str) -> (r: Option<i64>)
    requires
        est_in_range(s@),
    ensures
        match est_value(s@) {
            Some(x) => r == Some(x as i64),
            None => r is None,
        },
{
    let v = chars_of(s);
    match est_checked(v.as_slice()) {
        Some(r) => r,
        None => None,
    }
}

/// The estimate in seconds, checked: `None` when it does not fit an `i64`,
/// otherwise what `parse_est` gives.
fn est_checked(v: &[char]) -> (r: Option<Option<i64>>)
    ensures
        match est_value(v@) {
            Some(x) => if i64::MIN <= x <= i64::MAX {
                r == Some(Some(x as i64))
            } else {
                r is None
            },
            None => r == Some(None::<i64>),
        },
{
    let t = trimmed(v);
    let l = to_lower_all(t.as_slice());
    let n = l.len();
    if n == 0 {
        return Some(None);
    }
    let last = l[n - 1];
    let (num, mult): (Vec<char>, i64) = if last == 'd' {
        (sub_chars(l.as_slice(), 0, n - 1), 86_400)
    } else if last == 'h' {
        (sub_chars(l.as_slice(), 0, n - 1), 3_600)
    } else if last == 'm' {
        (sub_chars(l.as_slice(), 0, n - 1), 60)
    } else if last == 's' {
        (sub_chars(l.as_slice(), 0, n - 1), 1)
    } else {
        (sub_chars(l.as_slice(), 0, n), 1)
    };
    assert(l@.drop_last() =~= l@.subrange(0, n - 1));
    assert(l@.subrange(0, n as int) =~= l@);
    assert(num@ == est_split(l@).0 && mult == est_split(l@).1);
    let nt = trimmed(num.as_slice());
    match parse_i64(nt.as_slice()) {
        Some(x) => match x.checked_mul(mult) {
            Some(y) => Some(Some(y)),
            None => None,
        },
        None => Some(None),
    }
}

/// The cells of a table line that stands for an active task: the line
/// (trimmed) starts with `|`, the empty cells before the first and after the
/// last `|` dropped, at least six cells (ID, Cat, Status, Ord, Description,
/// Est), a numeric id, and the status `active` in any ASCII case.
pub open spec fn row_cells(line: Seq<char>) -> Option<Seq<Seq<char>>> {
    let l = trim(line);
    let c0 = md_cells(l);
    let c1 = if c0.len() > 0 && c0[0].len() == 0 {
        c0.drop_first()
    } else {
        c0
    };
    let cells = if c1.len() > 0 && c1.last().len() == 0 {
        c1.drop_last()
    } else {
        c1
    };
    if !(l.len() > 0 && l[0] == '|') {
        None
    } else if cells.len() < 6 {
        None
    } else if parse_u32_spec(cells[0]) is None {
        None
    } else if !eq_ic(cells[2], "active"@) {
        None
    } else {
        Some(cells)
    }
}

/// The task a table line stands for, if any; an unreadable estimate is 0.
pub open spec fn row_of(line: Seq<char>) -> Option<TaskRowModel> {
    match row_cells(line) {
        None => None,
        Some(cells) => Some(
            TaskRowModel {
                id: parse_u32_spec(cells[0])->Some_0,
                est_secs: match est_value(cells[5]) {
                    Some(x) => x as i64,
                    None => 0,
                },
                text: cells[4],
            },
        ),
    }
}

/// The tasks of a sequence of lines, in order.
pub open spec fn rows_of(lines: Seq<Seq<char>>) -> Seq<TaskRowModel>
    decreases lines.len(),
{
    if lines.len() == 0 {
        seq![]
    } else {
        let p = rows_of(lines.drop_last());
        match row_of(lines.last()) {
            Some(r) => p.push(r),
            None => p,
        }
    }
}

/// Every task line's estimate fits in an `i64`.
pub open spec fn lines_in_range(lines: Seq<Seq<char>>) -> bool {
    forall|i: int|
        0 <= i < lines.len() ==> (row_cells(#[trigger] lines[i]) matches Some(cells) ==> est_in_range(
            cells[5],
        ))
}

/// The tasks of a `ttask --format md list` output. (Lines are split at `\n`;
/// a `\r` before it is whitespace, which trimming removes.)
pub open spec fn md_list_spec(output: Seq<char>) -> Seq<TaskRowModel> {
    rows_of(split_char(output, '\n'))
}

/// Every task line of the output has an estimate that fits in an `i64`.
pub open spec fn md_list_in_range(output: Seq<char>) -> bool {
    lines_in_range(split_char(output, '\n'))
}

/// The cells of a line that stands for an active task (see `row_cells`).
fn cells_of(line: &[char]) -> (r: Option<Vec<Vec<char>>>)
    ensures
        match row_cells(line@) {
            Some(c) => r matches Some(v) && views(v@) == c,
            None => r is None,
        },
{
    let l = trimmed(line);
    if !(l.len() > 0 && l[0] == '|') {
        return None;
    }
    let mut cells = split_md_row(l.as_slice());
    if cells.len() > 0 && cells[0].len() == 0 {
        let ghost before = views(cells@);
        cells.remove(0);
        assert(views(cells@) =~= before.drop_first());
    }
    if cells.len() > 0 && cells[cells.len() - 1].len() == 0 {
        let ghost before = views(cells@);
        cells.pop();
        assert(views(cells@) =~= before.drop_last());
    }
    if cells.len() < 6 {
        return None;
    }
    if parse_u32(cells[0].as_slice()).is_none() {
        return None;
    }
    if !eq_ignore_case_str(cells[2].as_slice(), "active") {
        return None;
    }
    Some(cells)
}

/// Parses `ttask --format md list` output into rows, checking the estimates:
/// `None` when some task's estimate does not fit in an `i64`.
pub fn parse_md_list_checked(output: &str) -> (r: Option<Vec<TaskRow>>)
    ensures
        r is Some <==> md_list_in_range(output@),
        r matches Some(v) ==> rows_view(v@) == md_list_spec(output@),
{
    let chars = chars_of(output);
    let lines = split_on(chars.as_slice(), '\n');
    let ghost ls = split_char(output@, '\n');
    let mut rows: Vec<TaskRow> = Vec::new();
    let n = lines.len();
    for i in 0..n
        invariant
            n == lines@.len(),
            ls == split_char(output@, '\n'),
            views(lines@) == ls,
            rows_view(rows@) == rows_of(ls.take(i as int)),
            lines_in_range(ls.take(i as int)),
    {
        let ghost pre = ls.take(i as int);
        let ghost cur = ls.take(i + 1);
        assert(cur.drop_last() =~= pre);
        assert(cur.last() == lines@[i as int]@);
        match cells_of(lines[i].as_slice()) {
            None => {
                assert forall|k: int| 0 <= k < cur.len() implies (row_cells(#[trigger] cur[k]) matches Some(cells) ==> est_in_range(cells[5])) by {
                    if k < pre.len() {
                        assert(cur[k] == pre[k]);
                    }
                }
            },
            Some(cells) => {
                let id = parse_u32(cells[0].as_slice()).unwrap();
                let est = match est_checked(cells[5].as_slice()) {
                    None => {
                        proof {
                            assert(ls[i as int] == lines@[i as int]@);
                            assert(views(cells@)[5] == cells@[5]@);
                            assert(!est_in_range(cells@[5]@));
                            assert(!(row_cells(ls[i as int]) matches Some(cc) ==> est_in_range(cc[5])));
                        }
                        return None;
                    },
                    Some(e) => match e {
                        Some(x) => x,
                        None => 0,
                    },
                };
                let text = string_of(cells[4].as_slice());
                let ghost before = rows_view(rows@);
                rows.push(TaskRow { id, est_secs: est, text });
                assert(rows_view(rows@) =~= before.push(row_of(cur.last())->Some_0));
                assert forall|k: int| 0 <= k < cur.len() implies (row_cells(#[trigger] cur[k]) matches Some(cells) ==> est_in_range(cells[5])) by {
                    if k < pre.len() {
                        assert(cur[k] == pre[k]);
                    }
                }
            },
        }
    }
    assert(ls.take(n as int) =~= ls);
    Some(rows)
}

/// Parses `ttask --format md list` output into rows. The output is the
/// machine-targeted markdown table `| ID | Cat | Status | Ord | Description |
/// Est |`; header, separator and malformed rows fail the numeric-id read and
/// are skipped, and only active rows are returned.
pub fn parse_md_list(output: &str) -> (r: Vec<TaskRow>)
    requires
        md_list_in_range(output@),
    ensures
        rows_view(r@) == md_list_spec(output@),
{
    match parse_md_list_checked(output) {
        Some(rows) => rows,
        None => Vec::new(),
    }
}

/// A copy of a row.
pub fn copy_row(r: &TaskRow) -> (c: TaskRow)
    ensures
        c@ == r@,
{
    TaskRow { id: r.id, est_secs: r.est_secs, text: r.text.clone() }
}

/// Copies of the rows, in order.
pub fn copy_rows(v: &[TaskRow]) -> (c: Vec<TaskRow>)
    ensures
        rows_view(c@) == rows_view(v@),
{
    let mut c: Vec<TaskRow> = Vec::new();
    let n = v.len();
    for i in 0..n
        invariant
            n == v@.len(),
            rows_view(c@) == rows_view(v@.take(i as int)),
    {
        let ghost before = rows_view(c@);
        c.push(copy_row(&v[i]));
        assert(rows_view(c@) =~= before.push(v@[i as int]@));
        assert(rows_view(v@.take(i + 1)) =~= rows_view(v@.take(i as int)).push(v@[i as int]@));
    }
    assert(v@.take(n as int) =~= v@);
    c
}

/// The rows without those of task `id`, in order.
pub open spec fn without_id(rows: Seq<TaskRowModel>, id: u32) -> Seq<TaskRowModel>
    decreases rows.len(),
{
    if rows.len() == 0 {
        seq![]
    } else {
        let p = without_id(rows.drop_last(), id);
        if rows.last().id == id {
            p
        } else {
            p.push(rows.last())
        }
    }
}

fn remove_rows_with_id(v: &Vec<TaskRow>, id: u32) -> (c: Vec<TaskRow>)
    ensures
        rows_view(c@) == without_id(rows_view(v@), id),
{
    let mut c: Vec<TaskRow> = Vec::new();
    let n = v.len();
    for i in 0..n
        invariant
            n == v@.len(),
            rows_view(c@) == without_id(rows_view(v@.take(i as int)), id),
    {
        let ghost pre = rows_view(v@.take(i as int));
        let ghost cur = rows_view(v@.take(i + 1));
        assert(cur.drop_last() =~= pre);
        assert(cur.last() == v@[i as int]@);
        if v[i].id != id {
            let ghost before = rows_view(c@);
            c.push(copy_row(&v[i]));
            assert(rows_view(c@) =~= before.push(v@[i as int]@));
        }
    }
    assert(v@.take(n as int) =~= v@);
    c
}

/// The state behind a [`FakeTaskSource`].
pub struct FakeState {
    pub rows: Vec<TaskRow>,
    pub available: bool,
    pub completed: Vec<u32>,
    pub deleted: Vec<u32>,
    pub fail_writes: bool,
}

impl Default for FakeState {
    fn default() -> (r: Self)
        ensures
            r.rows@.len() == 0,
            !r.available,
            r.completed@.len() == 0,
            r.deleted@.len() == 0,
            !r.fail_writes,
    {
        FakeState {
            rows: Vec::new(),
            available: false,
            completed: Vec::new(),
            deleted: Vec::new(),
            fail_writes: false,
        }
    }
}

/// An in-memory [`TaskSource`]: no subprocess. It records what was written
/// and can be told to be unreachable or to fail its writes.
pub struct FakeTaskSource {
    pub state: FakeState,
    /// Every write asked of it, in order.
    pub asked: Ghost<Seq<TaskWrite>>,
}

impl FakeTaskSource {
    /// A reachable source holding `rows`, with nothing written yet.
    pub fn with_rows(rows: Vec<TaskRow>) -> (r: Self)
        ensures
            r.state.rows@ == rows@,
            r.state.available,
            r.state.completed@.len() == 0,
            r.state.deleted@.len() == 0,
            !r.state.fail_writes,
    {
        FakeTaskSource {
            state: FakeState {
                rows,
                available: true,
                completed: Vec::new(),
                deleted: Vec::new(),
                fail_writes: false,
            },
            asked: Ghost(Seq::empty()),
        }
    }

    /// Makes the source reachable or not.
    pub fn set_available(&mut self, available: bool)
        ensures
            final(self).state.available == available,
            final(self).state.rows@ == old(self).state.rows@,
            final(self).state.completed@ == old(self).state.completed@,
            final(self).state.deleted@ == old(self).state.deleted@,
            final(self).state.fail_writes == old(self).state.fail_writes,
    {
        self.state.available = available;
    }

    /// Makes the writes fail or succeed.
    pub fn set_fail_writes(&mut self, fail: bool)
        ensures
            final(self).state.fail_writes == fail,
            final(self).state.rows@ == old(self).state.rows@,
            final(self).state.completed@ == old(self).state.completed@,
            final(self).state.deleted@ == old(self).state.deleted@,
            final(self).state.available == old(self).state.available,
    {
        self.state.fail_writes = fail;
    }

    /// Replaces the active tasks.
    pub fn set_rows(&mut self, rows: Vec<TaskRow>)
        ensures
            final(self).state.rows@ == rows@,
            final(self).state.completed@ == old(self).state.completed@,
            final(self).state.deleted@ == old(self).state.deleted@,
            final(self).state.available == old(self).state.available,
            final(self).state.fail_writes == old(self).state.fail_writes,
    {
        self.state.rows = rows;
    }

    /// The ids completed so far, in order.
    pub fn completed(&self) -> (r: Vec<u32>)
        ensures
            r@ == self.state.completed@,
    {
        self.state.completed.clone()
    }

    /// The ids deleted so far, in order.
    pub fn deleted(&self) -> (r: Vec<u32>)
        ensures
            r@ == self.state.deleted@,
    {
        self.state.deleted.clone()
    }
}

impl TaskSource for FakeTaskSource {
    open spec fn keeps_account(&self) -> bool {
        true
    }

    open spec fn listing(&self) -> Option<Seq<TaskRowModel>> {
        if self.state.available {
            Some(rows_view(self.state.rows@))
        } else {
            None
        }
    }

    open spec fn writes(&self) -> Seq<TaskWrite> {
        self.asked@
    }

    open spec fn completions(&self) -> Seq<u32> {
        self.state.completed@
    }

    open spec fn deletions(&self) -> Seq<u32> {
        self.state.deleted@
    }

    fn list_active(&self) -> (r: Option<Vec<TaskRow>>)
        ensures
            self.state.available ==> (r matches Some(v) && rows_view(v@) == rows_view(self.state.rows@)),
            !self.state.available ==> r is None,
    {
        if !self.state.available {
            return None;
        }
        Some(copy_rows(self.state.rows.as_slice()))
    }

    fn complete(&mut self, id: u32) -> (r: Result<(), String>)
        ensures
            old(self).state.fail_writes ==> (r matches Err(e) && e@ == "write failed"@),
            old(self).state.fail_writes ==> final(self).state.completed@ == old(self).state.completed@
                && final(self).state.rows@ == old(self).state.rows@,
            !old(self).state.fail_writes ==> r is Ok && final(self).state.completed@ == old(self).state.completed@.push(id)
                && rows_view(final(self).state.rows@) == without_id(rows_view(old(self).state.rows@), id),
            final(self).state.deleted@ == old(self).state.deleted@,
            final(self).state.available == old(self).state.available,
            final(self).state.fail_writes == old(self).state.fail_writes,
    {
        proof {
            self.asked@ = self.asked@.push(TaskWrite::Complete(id));
        }
        if self.state.fail_writes {
            proof {
                reveal_strlit("write failed");
            }
            return Err(String::from_str("write failed"));
        }
        self.state.completed.push(id);
        self.state.rows = remove_rows_with_id(&self.state.rows, id);
        Ok(())
    }

    fn delete(&mut self, id: u32) -> (r: Result<(), String>)
        ensures
            old(self).state.fail_writes ==> (r matches Err(e) && e@ == "write failed"@),
            old(self).state.fail_writes ==> final(self).state.deleted@ == old(self).state.deleted@
                && final(self).state.rows@ == old(self).state.rows@,
            !old(self).state.fail_writes ==> r is Ok && final(self).state.deleted@ == old(self).state.deleted@.push(id)
                && rows_view(final(self).state.rows@) == without_id(rows_view(old(self).state.rows@), id),
            final(self).state.completed@ == old(self).state.completed@,
            final(self).state.available == old(self).state.available,
            final(self).state.fail_writes == old(self).state.fail_writes,
    {
        proof {
            self.asked@ = self.asked@.push(TaskWrite::Delete(id));
        }
        if self.state.fail_writes {
            proof {
                reveal_strlit("write failed");
            }
            return Err(String::from_str("write failed"));
        }
        self.state.deleted.push(id);
        self.state.rows = remove_rows_with_id(&self.state.rows, id);
        Ok(())
    }
}

} // verus!
