//! Display names for task-backed timers: the task text, made unique with a
//! `#<id>` suffix and then a counter.

use vstd::prelude::*;
use vstd::set_lib::{lemma_len_subset, lemma_map_size, set_int_range, lemma_int_range};

use crate::duration::{dec, dec_chars, digit_char};
use crate::text::{chars_eq, chars_of, push_all, push_str, string_of, trim, trimmed};
use crate::timer::{tviews, Timer, TimerModel};

verus! {

/// Another task's timer (or an ad-hoc one) already has `name`.
pub open spec fn m_collides(ms: Seq<TimerModel>, name: Seq<char>, id: u32) -> bool {
    exists|i: int| 0 <= i < ms.len() && (#[trigger] ms[i]).name == name && ms[i].task_id != Some(id)
}

/// The name a task's timer starts from: the trimmed text, or `task #<id>`
/// when that is empty.
pub open spec fn task_base(text: Seq<char>, id: u32) -> Seq<char> {
    if trim(text).len() == 0 {
        "task #"@ + dec(id as nat)
    } else {
        trim(text)
    }
}

/// `<base> #<id>`.
pub open spec fn suffixed(base: Seq<char>, id: u32) -> Seq<char> {
    base + " #"@ + dec(id as nat)
}

/// `<base> #<id> (<n>)`.
pub open spec fn numbered(base: Seq<char>, id: u32, n: nat) -> Seq<char> {
    suffixed(base, id) + " ("@ + dec(n) + ")"@
}

/// The least counter from 2 up whose numbered name is free.
pub open spec fn first_free(ms: Seq<TimerModel>, base: Seq<char>, id: u32) -> nat {
    choose|n: nat|
        n >= 2 && !m_collides(ms, numbered(base, id, n), id) && forall|m: nat|
            2 <= m < n ==> #[trigger] m_collides(ms, numbered(base, id, m), id)
}

/// A stable, unique display name for the timer of task `id` among timers
/// `ms`: the base if free, else `<base> #<id>` if free, else the first free
/// `<base> #<id> (<n>)` for n = 2, 3, ...
pub open spec fn unique_name(ms: Seq<TimerModel>, text: Seq<char>, id: u32) -> Seq<char> {
    let base = task_base(text, id);
    if !m_collides(ms, base, id) {
        base
    } else if !m_collides(ms, suffixed(base, id), id) {
        suffixed(base, id)
    } else {
        numbered(base, id, first_free(ms, base, id))
    }
}

proof fn lemma_dec_nonempty(n: nat)
    ensures
        dec(n).len() >= 1,
        n >= 10 ==> dec(n).len() >= 2,
    decreases n,
{
    if n >= 10 {
        lemma_dec_nonempty(n / 10);
    }
}

/// Decimal representations of different numbers differ.
pub proof fn lemma_dec_injective(a: nat, b: nat)
    requires
        dec(a) == dec(b),
    ensures
        a == b,
    decreases a,
{
    lemma_dec_nonempty(a);
    lemma_dec_nonempty(b);
    if a < 10 && b < 10 {
        assert(dec(a)[0] == digit_char(a));
        assert(dec(b)[0] == digit_char(b));
    } else if a >= 10 && b >= 10 {
        assert(dec(a).last() == digit_char(a % 10));
        assert(dec(b).last() == digit_char(b % 10));
        assert(dec(a).drop_last() =~= dec(a / 10));
        assert(dec(b).drop_last() =~= dec(b / 10));
        lemma_dec_injective(a / 10, b / 10);
    }
}

proof fn lemma_numbered_injective(base: Seq<char>, id: u32, a: nat, b: nat)
    requires
        numbered(base, id, a) == numbered(base, id, b),
    ensures
        a == b,
{
    let p = suffixed(base, id) + " ("@;
    let sa = numbered(base, id, a);
    let sb = numbered(base, id, b);
    assert(sa =~= p + dec(a) + ")"@);
    assert(sb =~= p + dec(b) + ")"@);
    assert(dec(a).len() == dec(b).len());
    assert(dec(a) =~= sa.subrange(p.len() as int, (p.len() + dec(a).len()) as int));
    assert(dec(b) =~= sb.subrange(p.len() as int, (p.len() + dec(b).len()) as int));
    lemma_dec_injective(a, b);
}

/// If the numbered names for 2..=n all collide, there are at least n - 1
/// timers: distinct names need distinct timers.
proof fn lemma_pigeonhole(ms: Seq<TimerModel>, base: Seq<char>, id: u32, n: int)
    requires
        n >= 2,
        forall|m: nat| 2 <= m <= n ==> #[trigger] m_collides(ms, numbered(base, id, m), id),
    ensures
        n - 1 <= ms.len(),
{
    let x = set_int_range(2, n + 1);
    let f = |m: int|
        choose|i: int|
            0 <= i < ms.len() && (#[trigger] ms[i]).name == numbered(base, id, m as nat)
                && ms[i].task_id != Some(id);
    assert forall|m: int| #[trigger] x.contains(m) implies 0 <= f(m) < ms.len() && ms[f(m)].name
        == numbered(base, id, m as nat) by {
        assert(m_collides(ms, numbered(base, id, m as nat), id));
    }
    assert(vstd::relations::injective_on(f, x)) by {
        assert forall|a: int, b: int| x.contains(a) && x.contains(b) && #[trigger] f(a) == #[trigger] f(b) implies a == b by {
            lemma_numbered_injective(base, id, a as nat, b as nat);
        }
    }
    lemma_int_range(2, n + 1);
    lemma_map_size(x, x.map(f), f);
    let r = set_int_range(0, ms.len() as int);
    lemma_int_range(0, ms.len() as int);
    assert(x.map(f).subset_of(r));
    lemma_len_subset(x.map(f), r);
}

/// Whether a timer of another task (or an ad-hoc one) is named `name`.
pub fn collides(ts: &Vec<Timer>, name: &[char], id: u32) -> (r: bool)
    ensures
        r == m_collides(tviews(ts@), name@, id),
{
    let n = ts.len();
    let ghost ms = tviews(ts@);
    for i in 0..n
        invariant
            n == ts@.len(),
            ms == tviews(ts@),
            forall|k: int| 0 <= k < i ==> !((#[trigger] ms[k]).name == name@ && ms[k].task_id != Some(id)),
    {
        let t = &ts[i];
        let tn = chars_of(t.name.as_str());
        if chars_eq(tn.as_slice(), name) && t.task_id != Some(id) {
            assert(ms[i as int].name == name@);
            return true;
        }
    }
    false
}

/// A stable, unique display name for the timer of task `task_id` among the
/// timers `ts`: tt requires unique timer names but task texts may collide.
pub fn unique_name_among(ts: &Vec<Timer>, text: &str, task_id: u32) -> (r: String)
    ensures
        r@ == unique_name(tviews(ts@), text@, task_id),
{
    let ghost ms = tviews(ts@);
    let tv = chars_of(text);
    let t = trimmed(tv.as_slice());
    let mut base: Vec<char> = Vec::new();
    if t.len() == 0 {
        push_str(&mut base, "task #");
        let d = dec_chars(task_id as u128);
        push_all(&mut base, d.as_slice());
    } else {
        base = t;
    }
    assert(base@ == task_base(text@, task_id));
    if !collides(ts, base.as_slice(), task_id) {
        return string_of(base.as_slice());
    }
    let mut suf = base.clone();
    push_str(&mut suf, " #");
    let d = dec_chars(task_id as u128);
    push_all(&mut suf, d.as_slice());
    assert(suf@ == suffixed(base@, task_id));
    if !collides(ts, suf.as_slice(), task_id) {
        return string_of(suf.as_slice());
    }
    let len = ts.len();
    let mut n: u128 = 2;
    loop
        invariant
            2 <= n <= len as int + 2,
            len == ts@.len(),
            ms == tviews(ts@),
            ms.len() == len,
            base@ == task_base(text@, task_id),
            suf@ == suffixed(base@, task_id),
            m_collides(ms, base@, task_id),
            m_collides(ms, suf@, task_id),
            forall|m: nat| 2 <= m < n ==> #[trigger] m_collides(ms, numbered(base@, task_id, m), task_id),
        decreases len as int + 2 - n,
    {
        let mut cand = suf.clone();
        push_str(&mut cand, " (");
        let dn = dec_chars(n);
        push_all(&mut cand, dn.as_slice());
        push_str(&mut cand, ")");
        assert(cand@ == numbered(base@, task_id, n as nat));
        if !collides(ts, cand.as_slice(), task_id) {
            proof {
                let f = first_free(ms, base@, task_id);
                assert(n >= 2 && !m_collides(ms, numbered(base@, task_id, n as nat), task_id) && forall|m: nat|
                    2 <= m < n ==> #[trigger] m_collides(ms, numbered(base@, task_id, m), task_id));
                if f < n {
                    assert(m_collides(ms, numbered(base@, task_id, f), task_id));
                } else if f > n {
                    assert(m_collides(ms, numbered(base@, task_id, n as nat), task_id));
                }
            }
            return string_of(cand.as_slice());
        }
        proof {
            lemma_pigeonhole(ms, base@, task_id, n as int);
        }
        n = n + 1;
    }
}

proof fn lemma_least_free(ms: Seq<TimerModel>, base: Seq<char>, id: u32, w: nat)
    requires
        w >= 2,
        !m_collides(ms, numbered(base, id, w), id),
    ensures
        exists|n: nat|
            n >= 2 && !m_collides(ms, numbered(base, id, n), id) && forall|m: nat|
                2 <= m < n ==> #[trigger] m_collides(ms, numbered(base, id, m), id),
    decreases w,
{
    if exists|m: nat| 2 <= m < w && !#[trigger] m_collides(ms, numbered(base, id, m), id) {
        let m = choose|m: nat| 2 <= m < w && !#[trigger] m_collides(ms, numbered(base, id, m), id);
        lemma_least_free(ms, base, id, m);
    } else {
        assert forall|m: nat| 2 <= m < w implies #[trigger] m_collides(ms, numbered(base, id, m), id) by {}
    }
}

/// A task timer's display name is free: no timer of another task, nor an
/// ad-hoc one, has it. So task texts that collide still give distinct names.
pub proof fn law_unique_name_is_free(ms: Seq<TimerModel>, text: Seq<char>, id: u32)
    ensures
        !m_collides(ms, unique_name(ms, text, id), id),
{
    let base = task_base(text, id);
    if m_collides(ms, base, id) && m_collides(ms, suffixed(base, id), id) {
        let n = ms.len() + 2;
        if forall|m: nat| 2 <= m <= n ==> #[trigger] m_collides(ms, numbered(base, id, m), id) {
            lemma_pigeonhole(ms, base, id, n as int);
        }
        let w = choose|m: nat| !(2 <= m <= n ==> #[trigger] m_collides(ms, numbered(base, id, m), id));
        lemma_least_free(ms, base, id, w);
    }
}

} // verus!
