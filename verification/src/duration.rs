//! Durations: parsing user input such as `"5"`, `"12.5m"` or `"1h"` into
//! milliseconds, and formatting milliseconds as `HH:MM:SS`.
//!
//! Durations are integer milliseconds throughout the library.

use vstd::prelude::*;

use crate::text::{
    all_ws, chars_eq_str, chars_of, is_ws, law_trim_ignores_padding, lowercase, string_of, sub_chars, to_lowercase, trim, trim_end,
    trim_start, trimmed,
};

verus! {

/// A duration string that could not be parsed; the message says why.
#[derive(Debug, PartialEq, Eq)]
pub struct ParseError(pub String);

pub open spec fn is_digit(c: char) -> bool {
    '0' <= c && c <= '9'
}

pub open spec fn digit_val(c: char) -> nat {
    (c as int - '0' as int) as nat
}

/// Characters that may make up the number part of a duration.
pub open spec fn num_char(c: char) -> bool {
    is_digit(c) || c == '.'
}

/// Length of the longest prefix made of digits and dots.
pub open spec fn num_len(s: Seq<char>) -> nat
    decreases s.len(),
{
    if s.len() > 0 && num_char(s[0]) {
        1 + num_len(s.drop_first())
    } else {
        0
    }
}

/// Number of dots.
pub open spec fn dots(n: Seq<char>) -> nat
    decreases n.len(),
{
    if n.len() == 0 {
        0
    } else {
        dots(n.drop_last()) + if n.last() == '.' { 1nat } else { 0nat }
    }
}

/// Number of digits.
pub open spec fn ndigits(n: Seq<char>) -> nat
    decreases n.len(),
{
    if n.len() == 0 {
        0
    } else {
        ndigits(n.drop_last()) + if is_digit(n.last()) { 1nat } else { 0nat }
    }
}

/// The digits read as one integer, the dot ignored (`"12.5"` gives 125).
pub open spec fn mantissa(n: Seq<char>) -> nat
    decreases n.len(),
{
    if n.len() == 0 {
        0
    } else if is_digit(n.last()) {
        mantissa(n.drop_last()) * 10 + digit_val(n.last())
    } else {
        mantissa(n.drop_last())
    }
}

/// Number of digits after the dot.
pub open spec fn frac_len(n: Seq<char>) -> nat
    decreases n.len(),
{
    if n.len() == 0 {
        0
    } else if is_digit(n.last()) && dots(n.drop_last()) >= 1 {
        frac_len(n.drop_last()) + 1
    } else if is_digit(n.last()) {
        0
    } else {
        frac_len(n.drop_last())
    }
}

/// A well-formed decimal number: digits with at most one dot, and at least
/// one digit (`"5"`, `"5."`, `".5"`, `"12.5"`; not `"."` or `"1.2.3"`).
pub open spec fn number_ok(n: Seq<char>) -> bool {
    &&& forall|i: int| 0 <= i < n.len() ==> num_char(#[trigger] n[i])
    &&& dots(n) <= 1
    &&& ndigits(n) >= 1
}

pub open spec fn pow10(k: nat) -> nat
    decreases k,
{
    if k == 0 {
        1
    } else {
        10 * pow10((k - 1) as nat)
    }
}

/// Milliseconds per unit of a suffix: seconds, minutes (also no suffix) or hours.
pub open spec fn suffix_scale(x: Seq<char>) -> Option<nat> {
    if x == "s"@ || x == "sec"@ || x == "secs"@ || x == "second"@ || x == "seconds"@ {
        Some(1000)
    } else if x == ""@ || x == "m"@ || x == "min"@ || x == "mins"@ || x == "minute"@ || x
        == "minutes"@ {
        Some(60_000)
    } else if x == "h"@ || x == "hr"@ || x == "hrs"@ || x == "hour"@ || x == "hours"@ {
        Some(3_600_000)
    } else {
        None
    }
}

/// The exact value of number `n` in a unit of `scale` milliseconds, rounded
/// down to whole milliseconds.
pub open spec fn value_ms(n: Seq<char>, scale: nat) -> nat {
    (mantissa(n) * scale) / pow10(frac_len(n))
}

/// The number part of a trimmed, lowercased duration.
pub open spec fn number_part(t: Seq<char>) -> Seq<char> {
    t.subrange(0, num_len(t) as int)
}

/// The suffix part of a trimmed, lowercased duration, itself trimmed.
pub open spec fn suffix_part(t: Seq<char>) -> Seq<char> {
    trim(t.subrange(num_len(t) as int, t.len() as int))
}

/// What parsing a trimmed, lowercased duration gives: milliseconds, or the
/// error message.
pub open spec fn parse_lowered_spec(t: Seq<char>) -> Result<int, Seq<char>> {
    let n = number_part(t);
    let x = suffix_part(t);
    if t.len() == 0 {
        Err("empty input"@)
    } else if !number_ok(n) {
        Err("invalid number: '"@ + n + "'"@)
    } else {
        match suffix_scale(x) {
            None => Err("unknown suffix: '"@ + x + "'"@),
            Some(scale) => if value_ms(n, scale) > i64::MAX {
                Err("duration too large: '"@ + n + "'"@)
            } else {
                Ok(value_ms(n, scale) as int)
            },
        }
    }
}

/// What `parse_duration` gives for `input`: the input is trimmed and
/// lowercased (`str::to_lowercase`) before it is read.
pub open spec fn parse_duration_spec(input: Seq<char>) -> Result<int, Seq<char>> {
    parse_lowered_spec(lowercase(trim(input)))
}

/// The result agrees with a spec result.
pub open spec fn agrees(r: Result<i64, ParseError>, s: Result<int, Seq<char>>) -> bool {
    match (r, s) {
        (Ok(v), Ok(w)) => v as int == w,
        (Err(e), Err(m)) => e.0@ == m,
        _ => false,
    }
}

proof fn lemma_num_len_exact(s: Seq<char>, k: int)
    requires
        0 <= k <= s.len(),
        forall|i: int| 0 <= i < k ==> num_char(#[trigger] s[i]),
        k == s.len() || !num_char(s[k]),
    ensures
        num_len(s) == k,
    decreases k,
{
    if k > 0 {
        assert forall|i: int| 0 <= i < k - 1 implies num_char(#[trigger] s.drop_first()[i]) by {
            assert(s.drop_first()[i] == s[i + 1]);
        }
        if k < s.len() {
            assert(s.drop_first()[k - 1] == s[k]);
        }
        lemma_num_len_exact(s.drop_first(), k - 1);
    }
}

/// Digits only.
pub open spec fn digits_only(s: Seq<char>) -> bool {
    forall|i: int| 0 <= i < s.len() ==> is_digit(#[trigger] s[i])
}

/// `scale` times the fraction `0.f`, rounded down, reckoned from the last
/// digit of `f` to the first.
spec fn frac_part(f: Seq<char>, scale: nat) -> nat
    decreases f.len(),
{
    if f.len() == 0 {
        0
    } else {
        (digit_val(f[0]) * scale + frac_part(f.drop_first(), scale)) / 10
    }
}

proof fn lemma_digits_only(s: Seq<char>)
    requires
        digits_only(s),
    ensures
        ndigits(s) == s.len(),
        dots(s) == 0,
        frac_len(s) == 0,
    decreases s.len(),
{
    if s.len() > 0 {
        assert(digits_only(s.drop_last())) by {
            assert forall|i: int| 0 <= i < s.drop_last().len() implies is_digit(#[trigger] s.drop_last()[i]) by {
                assert(s.drop_last()[i] == s[i]);
            }
        }
        lemma_digits_only(s.drop_last());
        assert(is_digit(s[s.len() - 1]));
    }
}

proof fn lemma_single(c: char)
    ensures
        dots(seq![c]) == if c == '.' { 1nat } else { 0nat },
        ndigits(seq![c]) == if is_digit(c) { 1nat } else { 0nat },
        mantissa(seq![c]) == if is_digit(c) { digit_val(c) } else { 0nat },
{
    let s = seq![c];
    let e = Seq::<char>::empty();
    assert(s.drop_last() =~= e);
    assert(s.last() == c);
    assert(dots(e) == 0);
    assert(ndigits(e) == 0);
    assert(mantissa(e) == 0);
}

proof fn lemma_dots_concat(a: Seq<char>, b: Seq<char>)
    ensures
        dots(a + b) == dots(a) + dots(b),
    decreases b.len(),
{
    if b.len() == 0 {
        assert(a + b =~= a);
    } else {
        lemma_dots_concat(a, b.drop_last());
        assert((a + b).drop_last() =~= a + b.drop_last());
        assert((a + b).last() == b.last());
    }
}

proof fn lemma_pow10_pos(k: nat)
    ensures
        pow10(k) > 0,
    decreases k,
{
    if k > 0 {
        lemma_pow10_pos((k - 1) as nat);
    }
}

proof fn lemma_mantissa_concat(a: Seq<char>, b: Seq<char>)
    ensures
        mantissa(a + b) == mantissa(a) * pow10(ndigits(b)) + mantissa(b),
    decreases b.len(),
{
    if b.len() == 0 {
        assert(a + b =~= a);
        assert(ndigits(b) == 0);
        assert(mantissa(b) == 0);
        assert(pow10(0) == 1);
        assert(mantissa(a) * 1 == mantissa(a));
    } else {
        let b1 = b.drop_last();
        lemma_mantissa_concat(a, b1);
        assert((a + b).drop_last() =~= a + b1);
        assert((a + b).last() == b.last());
        let ma = mantissa(a);
        let p = pow10(ndigits(b1));
        let m1 = mantissa(b1);
        if is_digit(b.last()) {
            assert(ndigits(b) == ndigits(b1) + 1);
            assert(pow10(ndigits(b1) + 1) == 10 * p);
            assert(mantissa(a + b) == mantissa(a + b1) * 10 + digit_val(b.last()));
            assert((ma * p + m1) * 10 == ma * (10 * p) + m1 * 10) by (nonlinear_arith);
        } else {
            assert(ndigits(b) == ndigits(b1));
            assert(mantissa(a + b) == mantissa(a + b1));
        }
    }
}

proof fn lemma_frac_len_split(ip: Seq<char>, fp: Seq<char>)
    requires
        digits_only(ip),
        digits_only(fp),
    ensures
        frac_len(ip + seq!['.'] + fp) == fp.len(),
    decreases fp.len(),
{
    if fp.len() == 0 {
        let n = ip + seq!['.'] + fp;
        assert(n.drop_last() =~= ip);
        assert(n.last() == '.');
        lemma_digits_only(ip);
    } else {
        let f1 = fp.drop_last();
        assert(digits_only(f1)) by {
            assert forall|i: int| 0 <= i < f1.len() implies is_digit(#[trigger] f1[i]) by {
                assert(f1[i] == fp[i]);
            }
        }
        lemma_frac_len_split(ip, f1);
        let n = ip + seq!['.'] + fp;
        assert(n.drop_last() =~= ip + seq!['.'] + f1);
        assert(n.last() == fp[fp.len() - 1]);
        lemma_dots_concat(ip + seq!['.'], f1);
        lemma_dots_concat(ip, seq!['.']);
        lemma_digits_only(ip);
        lemma_digits_only(f1);
        lemma_single('.');
    }
}

proof fn lemma_frac_part(f: Seq<char>, scale: nat)
    requires
        digits_only(f),
        scale > 0,
    ensures
        frac_part(f, scale) == mantissa(f) * scale / pow10(f.len()),
        frac_part(f, scale) < scale,
    decreases f.len(),
{
    if f.len() == 0 {
        assert(mantissa(f) == 0);
    } else {
        let r = f.drop_first();
        assert(digits_only(r)) by {
            assert forall|i: int| 0 <= i < r.len() implies is_digit(#[trigger] r[i]) by {
                assert(r[i] == f[i + 1]);
            }
        }
        lemma_frac_part(r, scale);
        let head = seq![f[0]];
        assert(f =~= head + r);
        lemma_mantissa_concat(head, r);
        lemma_digits_only(r);
        assert(is_digit(f[0]));
        lemma_single(f[0]);
        let d = digit_val(f[0]);
        assert(mantissa(head) == d);
        let p1 = pow10(r.len());
        lemma_pow10_pos(r.len());
        let mr = mantissa(r);
        assert(pow10(f.len()) == 10 * p1);
        let x = mantissa(f) * scale;
        assert(x == mr * scale + (d * scale) * p1) by (nonlinear_arith)
            requires
                mantissa(f) == d * p1 + mr,
                x == mantissa(f) * scale,
        ;
        vstd::arithmetic::div_mod::lemma_div_denominator(x as int, p1 as int, 10);
        assert(p1 * 10 == 10 * p1);
        vstd::arithmetic::div_mod::lemma_hoist_over_denominator((mr * scale) as int, (d * scale) as int, p1);
        let c = frac_part(r, scale);
        assert(d <= 9);
        assert((d * scale + c) / 10 < scale) by (nonlinear_arith)
            requires
                d <= 9,
                c < scale,
                scale > 0,
        ;
    }
}

/// The value of a number `ip.fp` (or `ip` when there is no dot) in units of
/// `scale` milliseconds: the whole part times the scale plus the fraction's
/// share, rounded down.
proof fn lemma_value_split(n: Seq<char>, ip: Seq<char>, fp: Seq<char>, dot: bool, scale: nat)
    requires
        digits_only(ip),
        digits_only(fp),
        dot ==> n == ip + seq!['.'] + fp,
        !dot ==> n == ip && fp.len() == 0,
        scale > 0,
    ensures
        value_ms(n, scale) == mantissa(ip) * scale + frac_part(fp, scale),
        value_ms(n, scale) >= mantissa(ip) * scale,
{
    lemma_frac_part(fp, scale);
    lemma_digits_only(fp);
    let mi = mantissa(ip);
    let mf = mantissa(fp);
    let p = pow10(fp.len());
    lemma_pow10_pos(fp.len());
    if dot {
        lemma_mantissa_concat(ip + seq!['.'], fp);
        lemma_mantissa_concat(ip, seq!['.']);
        lemma_single('.');
        assert(pow10(0) == 1);
        assert(mantissa(ip + seq!['.']) == mi * 1 + 0);
        assert(mi * 1 == mi);
        assert(ndigits(fp) == fp.len());
        assert(n == (ip + seq!['.']) + fp);
        assert(mantissa(n) == mi * p + mf);
        lemma_frac_len_split(ip, fp);
    } else {
        lemma_digits_only(ip);
        assert(fp.len() == 0);
        assert(mf == 0);
        assert(p == 1);
        assert(mi * 1 == mi);
        assert(mantissa(n) == mi * p + mf);
    }
    assert(mantissa(n) == mi * p + mf);
    assert(frac_len(n) == fp.len());
    assert(mantissa(n) * scale == mf * scale + (mi * scale) * p) by (nonlinear_arith)
        requires
            mantissa(n) == mi * p + mf,
    ;
    vstd::arithmetic::div_mod::lemma_hoist_over_denominator((mf * scale) as int, (mi * scale) as int, p);
}

/// Where the one dot of a number made of digits and dots is: `None` when
/// it is not a well-formed number; `Some(None)` when it has no dot, all
/// digits; `Some(Some(p))` when the dot is at `p`, digits on both sides.
fn number_shape(n: &[char]) -> (r: Option<Option<usize>>)
    requires
        forall|i: int| 0 <= i < n@.len() ==> num_char(#[trigger] n@[i]),
    ensures
        r is Some <==> number_ok(n@),
        r matches Some(None) ==> digits_only(n@),
        r matches Some(Some(p)) ==> p < n@.len() && n@ == n@.take(p as int) + seq!['.'] + n@.skip(p + 1)
            && digits_only(n@.take(p as int)) && digits_only(n@.skip(p + 1)),
{
    let len = n.len();
    let mut dot: Option<usize> = None;
    let mut twice = false;
    let mut has_digit = false;
    for i in 0..len
        invariant
            len == n@.len(),
            forall|i: int| 0 <= i < n@.len() ==> num_char(#[trigger] n@[i]),
            has_digit == (ndigits(n@.take(i as int)) >= 1),
            twice ==> dots(n@.take(i as int)) >= 2,
            !twice ==> dots(n@.take(i as int)) == if dot is Some { 1nat } else { 0nat },
            dot is None ==> digits_only(n@.take(i as int)),
            !twice ==> (dot matches Some(p) ==> p < i && n@[p as int] == '.' && digits_only(n@.take(p as int))
                && digits_only(n@.subrange(p + 1, i as int))),
    {
        let ghost pre = n@.take(i as int);
        let ghost cur = n@.take(i + 1);
        assert(cur.drop_last() =~= pre);
        assert(cur.last() == n@[i as int]);
        let c = n[i];
        if c == '.' {
            match dot {
                None => {
                    dot = Some(i);
                    proof {
                        assert(n@.take(i as int) =~= pre);
                        assert(n@.subrange(i + 1, i + 1) =~= Seq::<char>::empty());
                    }
                },
                Some(_) => {
                    twice = true;
                },
            }
        } else {
            has_digit = true;
            proof {
                assert(is_digit(c));
                if dot is None {
                    assert forall|k: int| 0 <= k < cur.len() implies is_digit(#[trigger] cur[k]) by {
                        if k < pre.len() {
                            assert(cur[k] == pre[k]);
                        }
                    }
                }
                if !twice && dot is Some {
                    let p = dot->0;
                    let s0 = n@.subrange(p + 1, i as int);
                    let s1 = n@.subrange(p + 1, i + 1);
                    assert forall|k: int| 0 <= k < s1.len() implies is_digit(#[trigger] s1[k]) by {
                        if k < s0.len() {
                            assert(s1[k] == s0[k]);
                        } else {
                            assert(s1[k] == n@[i as int]);
                        }
                    }
                }
            }
        }
    }
    assert(n@.take(len as int) =~= n@);
    if twice || !has_digit {
        return None;
    }
    match dot {
        None => Some(None),
        Some(p) => {
            assert(n@.subrange(p + 1, len as int) =~= n@.skip(p + 1));
            assert(n@ =~= n@.take(p as int) + seq!['.'] + n@.skip(p + 1));
            Some(Some(p))
        },
    }
}

/// The whole-number value of a digit string, when it is at most `i64::MAX`.
fn whole_value(d: &[char]) -> (r: Option<u128>)
    requires
        digits_only(d@),
    ensures
        r matches Some(v) ==> v == mantissa(d@) && v <= i64::MAX,
        r is None ==> mantissa(d@) > i64::MAX,
{
    let len = d.len();
    let mut v: u128 = 0;
    let mut over = false;
    for j in 0..len
        invariant
            len == d@.len(),
            digits_only(d@),
            !over ==> v == mantissa(d@.take(j as int)) && v <= i64::MAX,
            over ==> mantissa(d@.take(j as int)) > i64::MAX,
    {
        let ghost pre = d@.take(j as int);
        let ghost cur = d@.take(j + 1);
        assert(cur.drop_last() =~= pre);
        assert(cur.last() == d@[j as int]);
        assert(is_digit(d@[j as int]));
        if !over {
            let w = v * 10 + ((d[j] as u32 - '0' as u32) as u128);
            if w > i64::MAX as u128 {
                over = true;
            } else {
                v = w;
            }
        }
    }
    assert(d@.take(len as int) =~= d@);
    if over {
        None
    } else {
        Some(v)
    }
}

/// `scale` times the fraction `0.f`, rounded down.
fn fraction_value(f: &[char], scale: u128) -> (r: u128)
    requires
        digits_only(f@),
        0 < scale <= 3_600_000,
    ensures
        r == mantissa(f@) * (scale as nat) / pow10(f@.len()),
        r < scale,
{
    let len = f.len();
    let mut c: u128 = 0;
    let mut k: usize = len;
    assert(f@.subrange(len as int, len as int) =~= Seq::<char>::empty());
    while k > 0
        invariant
            k <= len == f@.len(),
            digits_only(f@),
            0 < scale <= 3_600_000,
            c == frac_part(f@.subrange(k as int, len as int), scale as nat),
            c < scale,
        decreases k,
    {
        let ghost tail = f@.subrange(k as int, len as int);
        let ghost more = f@.subrange(k - 1, len as int);
        assert(more.drop_first() =~= tail);
        assert(more[0] == f@[k - 1]);
        assert(is_digit(f@[k - 1]));
        let dv = (f[k - 1] as u32 - '0' as u32) as u128;
        assert(dv == digit_val(f@[k - 1]));
        proof {
            assert(digits_only(more)) by {
                assert forall|i: int| 0 <= i < more.len() implies is_digit(#[trigger] more[i]) by {
                    assert(more[i] == f@[k - 1 + i]);
                }
            }
            lemma_frac_part(more, scale as nat);
        }
        assert(dv * scale + c <= 9 * 3_600_000 + 3_600_000) by (nonlinear_arith)
            requires
                dv <= 9,
                scale <= 3_600_000,
                c < scale,
        ;
        c = (dv * scale + c) / 10;
        k = k - 1;
    }
    assert(f@.subrange(0, len as int) =~= f@);
    proof {
        lemma_frac_part(f@, scale as nat);
    }
    c
}

/// `prefix`, then `body`, then a closing quote.
pub fn quoted(prefix: &str, body: &[char]) -> (r: String)
    ensures
        r@ == prefix@ + body@ + "'"@,
{
    let mut r = String::from_str(prefix);
    let b = string_of(body);
    r.append(b.as_str());
    r.append("'");
    r
}

/// Milliseconds per unit for a suffix, as `suffix_scale` says.
fn scale_of(x: &[char]) -> (r: Option<u128>)
    ensures
        match (r, suffix_scale(x@)) {
            (Some(a), Some(b)) => a as nat == b,
            (None, None) => true,
            _ => false,
        },
{
    if chars_eq_str(x, "s") || chars_eq_str(x, "sec") || chars_eq_str(x, "secs") || chars_eq_str(
        x,
        "second",
    ) || chars_eq_str(x, "seconds") {
        Some(1000)
    } else if chars_eq_str(x, "") || chars_eq_str(x, "m") || chars_eq_str(x, "min")
        || chars_eq_str(x, "mins") || chars_eq_str(x, "minute") || chars_eq_str(x, "minutes") {
        Some(60_000)
    } else if chars_eq_str(x, "h") || chars_eq_str(x, "hr") || chars_eq_str(x, "hrs")
        || chars_eq_str(x, "hour") || chars_eq_str(x, "hours") {
        Some(3_600_000)
    } else {
        None
    }
}

/// Parses a duration that is already trimmed and lowercased.
pub fn parse_lowered(t: &[char]) -> (r: Result<i64, ParseError>)
    ensures
        agrees(r, parse_lowered_spec(t@)),
{
    if t.len() == 0 {
        return Err(ParseError(String::from_str("empty input")));
    }
    let len = t.len();
    let mut k: usize = 0;
    while k < len && (('0' <= t[k] && t[k] <= '9') || t[k] == '.')
        invariant
            k <= len == t@.len(),
            forall|i: int| 0 <= i < k ==> num_char(#[trigger] t@[i]),
        decreases len - k,
    {
        k = k + 1;
    }
    proof {
        lemma_num_len_exact(t@, k as int);
    }
    let n = sub_chars(t, 0, k);
    let rest = sub_chars(t, k, len);
    let x = trimmed(rest.as_slice());
    assert(n@ == number_part(t@));
    assert(x@ == suffix_part(t@));
    let shape = match number_shape(n.as_slice()) {
        None => {
            return Err(ParseError(quoted("invalid number: '", n.as_slice())));
        },
        Some(o) => o,
    };
    let scale = match scale_of(x.as_slice()) {
        None => {
            return Err(ParseError(quoted("unknown suffix: '", x.as_slice())));
        },
        Some(s) => s,
    };
    let nlen = n.len();
    let (ip, fp) = match shape {
        None => (sub_chars(n.as_slice(), 0, nlen), Vec::new()),
        Some(p) => (sub_chars(n.as_slice(), 0, p), sub_chars(n.as_slice(), p + 1, nlen)),
    };
    proof {
        assert(n@.subrange(0, nlen as int) =~= n@);
        if let Some(p) = shape {
            assert(n@.subrange(0, p as int) =~= n@.take(p as int));
            assert(n@.subrange(p + 1, nlen as int) =~= n@.skip(p + 1));
        }
        lemma_value_split(n@, ip@, fp@, shape is Some, scale as nat);
    }
    let whole = match whole_value(ip.as_slice()) {
        None => {
            assert(mantissa(ip@) * (scale as nat) >= mantissa(ip@)) by (nonlinear_arith)
                requires
                    scale >= 1,
            ;
            return Err(ParseError(quoted("duration too large: '", n.as_slice())));
        },
        Some(w) => w,
    };
    let frac = fraction_value(fp.as_slice(), scale);
    assert(whole * scale <= 9223372036854775807u128 * 3600000u128) by (nonlinear_arith)
        requires
            whole <= 9223372036854775807u128,
            scale <= 3600000,
    ;
    let v = whole * scale + frac;
    proof {
        lemma_frac_part(fp@, scale as nat);
    }
    if v > i64::MAX as u128 {
        Err(ParseError(quoted("duration too large: '", n.as_slice())))
    } else {
        Ok(v as i64)
    }
}

/// Parses a duration string into milliseconds.
///
/// The input is trimmed and lowercased first. A plain number is minutes
/// (`"5"` is 300 000 ms); a number may carry a suffix `s`, `m` or `h` (and
/// spellings such as `"min"` or `"hours"`), may have a decimal part
/// (`"12.5m"` is 750 000 ms), and is rounded down to whole milliseconds.
pub fn parse_duration(input: &str) -> (r: Result<i64, ParseError>)
    ensures
        agrees(r, parse_duration_spec(input@)),
{
    let v = chars_of(input);
    let t = trimmed(v.as_slice());
    let ts = string_of(t.as_slice());
    let lowered = to_lowercase(ts.as_str());
    let lv = chars_of(lowered.as_str());
    parse_lowered(lv.as_slice())
}

/// The character of a decimal digit.
pub open spec fn digit_char(d: nat) -> char {
    (('0' as int) + d) as char
}

/// Decimal representation of `n`, without leading zeros.
pub open spec fn dec(n: nat) -> Seq<char>
    decreases n,
{
    if n < 10 {
        seq![digit_char(n)]
    } else {
        dec(n / 10).push(digit_char(n % 10))
    }
}

/// Decimal representation padded with a zero to at least two digits.
pub open spec fn pad2(n: nat) -> Seq<char> {
    if n < 10 {
        seq!['0', digit_char(n)]
    } else {
        dec(n)
    }
}

/// `HH:MM:SS` for a number of whole seconds (hours may exceed two digits).
pub open spec fn hms(total: nat) -> Seq<char> {
    pad2(total / 3600) + seq![':'] + pad2((total % 3600) / 60) + seq![':'] + pad2(total % 60)
}

pub open spec fn abs(x: int) -> nat {
    if x < 0 {
        (-x) as nat
    } else {
        x as nat
    }
}

/// Whole seconds of `ms`, magnitude rounded half away from zero.
pub open spec fn rounded_secs(ms: int) -> nat {
    (abs(ms) + 500) / 1000
}

/// What `format_seconds` gives: `HH:MM:SS` of the rounded magnitude, with a
/// leading `-` for a negative value.
pub open spec fn format_spec(ms: int) -> Seq<char> {
    if ms < 0 {
        seq!['-'] + hms(rounded_secs(ms))
    } else {
        hms(rounded_secs(ms))
    }
}

fn digit(d: u128) -> (c: char)
    requires
        d < 10,
    ensures
        c == digit_char(d as nat),
{
    ((d as u8) + 48) as char
}

/// Decimal digits of `n`.
pub fn dec_chars(n: u128) -> (r: Vec<char>)
    ensures
        r@ == dec(n as nat),
    decreases n,
{
    if n < 10 {
        let mut r: Vec<char> = Vec::new();
        r.push(digit(n));
        r
    } else {
        let mut r = dec_chars(n / 10);
        r.push(digit(n % 10));
        r
    }
}

fn push_pad2(out: &mut Vec<char>, n: u64)
    ensures
        final(out)@ == old(out)@ + pad2(n as nat),
{
    if n < 10 {
        out.push('0');
        out.push(digit(n as u128));
        assert(final(out)@ =~= old(out)@ + pad2(n as nat));
    } else {
        let d = dec_chars(n as u128);
        let ghost before = out@;
        let len = d.len();
        for i in 0..len
            invariant
                len == d@.len(),
                out@ == before + d@.take(i as int),
        {
            out.push(d[i]);
            assert(d@.take(i + 1) =~= d@.take(i as int).push(d@[i as int]));
        }
        assert(d@.take(len as int) =~= d@);
    }
}

/// Formats milliseconds as `HH:MM:SS`, rounding to the nearest whole second
/// (halves away from zero); negative values get a leading `-`.
pub fn format_seconds(total_ms: i64) -> (r: String)
    ensures
        r@ == format_spec(total_ms as int),
{
    let negative = total_ms < 0;
    let magnitude: u64 = if negative {
        (-(total_ms as i128)) as u64
    } else {
        total_ms as u64
    };
    let total = (magnitude + 500) / 1000;
    let h = total / 3600;
    let m = (total % 3600) / 60;
    let s = total % 60;
    let mut out: Vec<char> = Vec::new();
    if negative {
        out.push('-');
    }
    let ghost start = out@;
    push_pad2(&mut out, h);
    out.push(':');
    push_pad2(&mut out, m);
    out.push(':');
    push_pad2(&mut out, s);
    assert(total as nat == rounded_secs(total_ms as int));
    assert(out@ =~= start + hms(total as nat));
    string_of(out.as_slice())
}

proof fn lemma_minute_scales()
    ensures
        suffix_scale(""@) == Some(60_000nat),
        suffix_scale("m"@) == Some(60_000nat),
{
    reveal_strlit("");
    reveal_strlit("m");
    reveal_strlit("s");
    reveal_strlit("sec");
    reveal_strlit("secs");
    reveal_strlit("second");
    reveal_strlit("seconds");
    assert(""@ != "s"@ && ""@ != "sec"@ && ""@ != "secs"@ && ""@ != "second"@ && ""@ != "seconds"@) by {
        assert(""@.len() != "s"@.len());
        assert(""@.len() != "sec"@.len());
        assert(""@.len() != "secs"@.len());
        assert(""@.len() != "second"@.len());
        assert(""@.len() != "seconds"@.len());
    }
    assert("m"@ != "s"@ && "m"@ != "sec"@ && "m"@ != "secs"@ && "m"@ != "second"@ && "m"@ != "seconds"@) by {
        assert("m"@[0] != "s"@[0]);
        assert("m"@.len() != "sec"@.len());
        assert("m"@.len() != "secs"@.len());
        assert("m"@.len() != "second"@.len());
        assert("m"@.len() != "seconds"@.len());
    }
}

/// A number without a suffix counts as minutes: for a well-formed number
/// whose value fits, parsing gives its value in minutes, rounded down to
/// whole milliseconds.
pub proof fn law_plain_number_is_minutes(n: Seq<char>)
    requires
        number_ok(n),
        value_ms(n, 60_000) <= i64::MAX,
    ensures
        parse_lowered_spec(n) == Ok::<int, Seq<char>>(value_ms(n, 60_000) as int),
{
    lemma_num_len_exact(n, n.len() as int);
    assert(number_part(n) =~= n);
    assert(n.subrange(n.len() as int, n.len() as int) =~= Seq::<char>::empty());
    assert(trim_start(Seq::<char>::empty()) =~= Seq::<char>::empty());
    assert(trim_end(Seq::<char>::empty()) =~= Seq::<char>::empty());
    reveal_strlit("");
    assert(suffix_part(n) =~= ""@);
    lemma_minute_scales();
    assert(ndigits(n) >= 1);
    assert(n.len() > 0);
}

/// The suffix `m` changes nothing: a number followed by `m` parses as the
/// bare number does.
pub proof fn law_minute_suffix_is_default(n: Seq<char>)
    requires
        number_ok(n),
    ensures
        parse_lowered_spec(n + "m"@) == parse_lowered_spec(n),
{
    reveal_strlit("m");
    reveal_strlit("");
    let t = n + "m"@;
    assert(t[n.len() as int] == 'm');
    assert forall|i: int| 0 <= i < n.len() implies num_char(#[trigger] t[i]) by {
        assert(t[i] == n[i]);
    }
    lemma_num_len_exact(t, n.len() as int);
    lemma_num_len_exact(n, n.len() as int);
    assert(number_part(t) =~= n);
    assert(number_part(n) =~= n);
    let rest = t.subrange(n.len() as int, t.len() as int);
    assert(rest =~= seq!['m']);
    assert(!is_ws('m'));
    assert(trim_start(rest) =~= rest);
    assert(trim_end(rest) =~= rest);
    assert(suffix_part(t) =~= "m"@);
    assert(n.subrange(n.len() as int, n.len() as int) =~= Seq::<char>::empty());
    assert(trim_start(Seq::<char>::empty()) =~= Seq::<char>::empty());
    assert(trim_end(Seq::<char>::empty()) =~= Seq::<char>::empty());
    assert(suffix_part(n) =~= ""@);
    lemma_minute_scales();
    assert(ndigits(n) >= 1);
    assert(t.len() > 0 && n.len() > 0);
}

/// A negative time is shown as the same time with a leading minus sign.
pub proof fn law_negative_format_mirrors_positive(ms: int)
    requires
        ms > 0,
    ensures
        format_spec(-ms) == seq!['-'] + format_spec(ms),
{
}

/// Whitespace around a duration does not change what it parses to.
pub proof fn law_duration_ignores_padding(a: Seq<char>, input: Seq<char>, b: Seq<char>)
    requires
        all_ws(a),
        all_ws(b),
    ensures
        parse_duration_spec(a + input + b) == parse_duration_spec(input),
{
    law_trim_ignores_padding(a, input, b);
}

} // verus!
