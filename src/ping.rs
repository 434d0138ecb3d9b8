//! Reading the round-trip time out of one line of `ping` output, as printed
//! by Windows (`time=14ms`, `time<1ms`) or Linux (`time=14.2 ms`). The
//! number is read with the grammar of Rust's floating-point literals and its
//! exact decimal value is rounded to the nearest millisecond in integer
//! arithmetic. Reading it as an `f64` first would round it to 53 significant
//! bits; the two agree whenever the number has at most 15 significant
//! digits and lies below 2^53 or at 2^64 and above, which is where the time
//! is promised to equal the `f64` reading.
use vstd::prelude::*;
use crate::text::{chars_at, chars_match, dec_val, is_ascii_digit, remove_all, trim, trim_chars, without_from};

verus! {

/// First index `>= i` at which `pat` occurs in `s`.
pub open spec fn find_chars(s: Seq<char>, pat: Seq<char>, i: int) -> Option<int>
    decreases s.len() + 1 - i,
{
    if i < 0 || i + pat.len() > s.len() {
        None
    } else if chars_at(s, pat, i) {
        Some(i)
    } else {
        find_chars(s, pat, i + 1)
    }
}

proof fn lemma_find_some(s: Seq<char>, pat: Seq<char>, j: int)
    ensures
        find_chars(s, pat, j) matches Some(i) ==> j <= i && i + pat.len() <= s.len(),
    decreases s.len() + 1 - j,
{
    if !(j < 0 || j + pat.len() > s.len()) && !chars_at(s, pat, j) {
        lemma_find_some(s, pat, j + 1);
    }
}

/// Where `pat` first occurs in `s`.
pub fn find_text(s: &str, pat: &str) -> (r: Option<usize>)
    ensures
        match r {
            Some(i) => find_chars(s@, pat@, 0) == Some(i as int) && i + pat@.len() <= s@.len(),
            None => find_chars(s@, pat@, 0) == None::<int>,
        },
{
    proof {
        lemma_find_some(s@, pat@, 0);
    }
    let n = s.unicode_len();
    let m = pat.unicode_len();
    if m > n {
        return None;
    }
    let last = n - m;
    let mut i: usize = 0;
    while i < last
        invariant
            n == s@.len(),
            m == pat@.len(),
            last + m == n,
            i <= last,
            find_chars(s@, pat@, 0) == find_chars(s@, pat@, i as int),
        decreases last - i,
    {
        if chars_match(s, pat, i) {
            return Some(i);
        }
        i = i + 1;
    }
    if chars_match(s, pat, last) {
        Some(last)
    } else {
        assert(find_chars(s@, pat@, last + 1) == None::<int>);
        None
    }
}

/// `c` is the lower-case letter `l` in either case.
pub open spec fn letter_is(c: char, l: char) -> bool {
    c == l || c as u32 + 32 == l as u32
}

/// `s` spells the lower-case word `w`, ignoring case.
pub open spec fn word_ci(s: Seq<char>, w: Seq<char>) -> bool {
    s.len() == w.len() && forall|k: int| 0 <= k < s.len() ==> letter_is(#[trigger] s[k], w[k])
}

/// End of the run of ASCII digits of `t` that starts at `i`.
pub open spec fn digits_end(t: Seq<char>, i: int) -> int
    decreases t.len() - i,
{
    if 0 <= i < t.len() && is_ascii_digit(t[i]) { digits_end(t, i + 1) } else { i }
}

pub open spec fn pow10(n: nat) -> nat
    decreases n,
{
    if n == 0 { 1 } else { 10 * pow10((n - 1) as nat) }
}

/// The integer part of the number whose digits are `g` with the decimal
/// point after `p` of them (`p` may lie outside `g`).
pub open spec fn int_part(g: Seq<char>, p: int) -> nat {
    if p <= 0 {
        0
    } else if p <= g.len() {
        dec_val(g, 0, p)
    } else {
        dec_val(g, 0, g.len() as int) * pow10((p - g.len()) as nat)
    }
}

/// The first digit after the point is 5 or more: rounding goes up.
pub open spec fn rounds_up(g: Seq<char>, p: int) -> bool {
    0 <= p < g.len() && g[p] as u32 >= 53
}

pub open spec fn clamp_u64(v: nat) -> u64 {
    if v > u64::MAX { u64::MAX } else { v as u64 }
}

/// `int_part` plus one when rounding goes up, as a `u64` (saturating).
pub open spec fn rounded(g: Seq<char>, p: int) -> u64 {
    clamp_u64(int_part(g, p) + if rounds_up(g, p) { 1nat } else { 0nat })
}

pub open spec fn nan_word() -> Seq<char> {
    seq!['n', 'a', 'n']
}

pub open spec fn inf_word() -> Seq<char> {
    seq!['i', 'n', 'f']
}

pub open spec fn infinity_word() -> Seq<char> {
    seq!['i', 'n', 'f', 'i', 'n', 'i', 't', 'y']
}

/// The exact rounding of the number that `t` spells, as a `u64`: `[+|-]` then `inf`, `infinity` or `nan`
/// (any case), or digits with an optional `.` and an optional exponent
/// `e[+|-]digits`, with at least one mantissa digit. NaN and every negative
/// number give 0, infinity gives `u64::MAX`, halves round away from zero.
pub open spec fn decimal_round(t: Seq<char>) -> Option<u64> {
    let neg = t.len() > 0 && t[0] == '-';
    let a: int = if t.len() > 0 && (t[0] == '+' || t[0] == '-') { 1 } else { 0 };
    let body = t.subrange(a, t.len() as int);
    if word_ci(body, nan_word()) {
        Some(0)
    } else if word_ci(body, inf_word()) || word_ci(body, infinity_word()) {
        Some(if neg { 0 } else { u64::MAX })
    } else {
        number_round(t, a, neg)
    }
}

/// The numeric case of [`decimal_round`], for `t[a..]`.
pub open spec fn number_round(t: Seq<char>, a: int, neg: bool) -> Option<u64> {
    let i_end = digits_end(t, a);
    let has_dot = i_end < t.len() && t[i_end] == '.';
    let f_start = if has_dot { i_end + 1 } else { i_end };
    let f_end = digits_end(t, f_start);
    let g = t.subrange(a, i_end) + t.subrange(f_start, f_end);
    let has_e = f_end < t.len() && (t[f_end] == 'e' || t[f_end] == 'E');
    let es = f_end + 1;
    let signed_e = has_e && es < t.len() && (t[es] == '+' || t[es] == '-');
    let ea = if signed_e { es + 1 } else { es };
    let e_end = if has_e { digits_end(t, ea) } else { f_end };
    let valid = g.len() >= 1 && (if has_e { e_end > ea && e_end == t.len() } else { f_end == t.len() });
    let ev = dec_val(t, ea, e_end) as int;
    let e: int = if !has_e { 0 } else if signed_e && t[es] == '-' { -ev } else { ev };
    if !valid {
        None
    } else if neg {
        Some(0)
    } else {
        Some(rounded(g, (i_end - a) + e))
    }
}

/// The text between `time` and the unit, with `time`, `=` and `<` removed
/// and surrounding whitespace trimmed.
pub open spec fn raw_token(seg: Seq<char>) -> Seq<char> {
    trim_chars(without_from(without_from(without_from(seg, seq!['t', 'i', 'm', 'e'], 0), seq!['='], 0), seq!['<'], 0))
}

/// The round-trip time in a line of ping output: from the first `time` up to
/// the next `ms` (or, failing that, the next space), read by [`raw_token`]
/// and [`decimal_round`].
pub open spec fn ping_time_exact(s: Seq<char>) -> Option<u64> {
    match find_chars(s, seq!['t', 'i', 'm', 'e'], 0) {
        None => None,
        Some(pos) => {
            let part = s.subrange(pos, s.len() as int);
            let end = match find_chars(part, seq!['m', 's'], 0) {
                Some(e) => Some(e),
                None => find_chars(part, seq![' '], 0),
            };
            match end {
                None => None,
                Some(e) => decimal_round(raw_token(part.subrange(0, e))),
            }
        },
    }
}

/// The raw token of a line of ping output, if it has `time` and then `ms`
/// or a space.
pub open spec fn ping_token(s: Seq<char>) -> Option<Seq<char>> {
    match find_chars(s, seq!['t', 'i', 'm', 'e'], 0) {
        None => None,
        Some(pos) => {
            let part = s.subrange(pos, s.len() as int);
            let end = match find_chars(part, seq!['m', 's'], 0) {
                Some(e) => Some(e),
                None => find_chars(part, seq![' '], 0),
            };
            match end {
                None => None,
                Some(e) => Some(raw_token(part.subrange(0, e))),
            }
        },
    }
}

/// Index of the first digit of `g` from `i` on that is not `0`, or its length.
pub open spec fn first_nonzero(g: Seq<char>, i: int) -> int
    decreases g.len() - i,
{
    if 0 <= i < g.len() && g[i] == '0' { first_nonzero(g, i + 1) } else { i }
}

/// End of `g[..j]` once trailing `0` digits are dropped.
pub open spec fn last_nonzero_end(g: Seq<char>, j: int) -> int
    decreases j,
{
    if 0 < j <= g.len() && g[j - 1] == '0' { last_nonzero_end(g, j - 1) } else { j }
}

/// Number of significant digits of the digit string `g`.
pub open spec fn significant_digits(g: Seq<char>) -> int {
    let lo = first_nonzero(g, 0);
    if lo >= g.len() { 0 } else { last_nonzero_end(g, g.len() as int) - lo }
}

/// Rounding the exact value of `t` and rounding its nearest `f64` give the
/// same millisecond: `t` is not a non-negative number, or it has at most 15
/// significant digits and lies below 2^53 or at 2^64 and above.
pub open spec fn f64_agrees(t: Seq<char>) -> bool {
    let neg = t.len() > 0 && t[0] == '-';
    let a: int = if t.len() > 0 && (t[0] == '+' || t[0] == '-') { 1 } else { 0 };
    let body = t.subrange(a, t.len() as int);
    if neg || word_ci(body, nan_word()) || word_ci(body, inf_word()) || word_ci(body, infinity_word()) {
        true
    } else {
        let i_end = digits_end(t, a);
        let has_dot = i_end < t.len() && t[i_end] == '.';
        let f_start = if has_dot { i_end + 1 } else { i_end };
        let f_end = digits_end(t, f_start);
        let g = t.subrange(a, i_end) + t.subrange(f_start, f_end);
        let has_e = f_end < t.len() && (t[f_end] == 'e' || t[f_end] == 'E');
        let es = f_end + 1;
        let signed_e = has_e && es < t.len() && (t[es] == '+' || t[es] == '-');
        let ea = if signed_e { es + 1 } else { es };
        let e_end = if has_e { digits_end(t, ea) } else { f_end };
        let valid = g.len() >= 1 && (if has_e { e_end > ea && e_end == t.len() } else { f_end == t.len() });
        let ev = dec_val(t, ea, e_end) as int;
        let e: int = if !has_e { 0 } else if signed_e && t[es] == '-' { -ev } else { ev };
        let ip = int_part(g, (i_end - a) + e);
        !valid || (significant_digits(g) <= 15 && (ip < 0x20_0000_0000_0000 || ip >= 0x1_0000_0000_0000_0000))
    }
}

/// The ping time is promised to equal the `f64` reading of the line.
pub open spec fn ping_time_agrees(s: Seq<char>) -> bool {
    match ping_token(s) {
        Some(t) => f64_agrees(t),
        None => true,
    }
}

proof fn lemma_digits_end(t: Seq<char>, i: int)
    requires
        0 <= i <= t.len(),
    ensures
        i <= digits_end(t, i) <= t.len(),
        forall|k: int| i <= k < digits_end(t, i) ==> is_ascii_digit(#[trigger] t[k]),
        digits_end(t, i) < t.len() ==> !is_ascii_digit(t[digits_end(t, i)]),
    decreases t.len() - i,
{
    if i < t.len() && is_ascii_digit(t[i]) {
        lemma_digits_end(t, i + 1);
    }
}

proof fn lemma_pow10_big(n: nat)
    requires
        n >= 20,
    ensures
        pow10(n) > u64::MAX,
    decreases n,
{
    if n == 20 {
        reveal_with_fuel(pow10, 21);
    } else {
        lemma_pow10_big((n - 1) as nat);
    }
}

/// A far-away point gives the same result as one at distance `cap`.
proof fn lemma_far_point(g: Seq<char>, ni: int, e: int, cap: int)
    requires
        forall|k: int| 0 <= k < g.len() ==> is_ascii_digit(#[trigger] g[k]),
        0 <= ni <= g.len(),
        cap >= g.len() + 22,
        e > cap,
    ensures
        rounded(g, ni + e) == rounded(g, ni + cap + 1),
        rounded(g, ni - e) == rounded(g, ni - (cap + 1)),
{
    let m = g.len() as int;
    let d = dec_val(g, 0, m);
    let q1 = pow10((ni + e - m) as nat);
    let q2 = pow10((ni + cap + 1 - m) as nat);
    lemma_pow10_big((ni + e - m) as nat);
    lemma_pow10_big((ni + cap + 1 - m) as nat);
    assert(int_part(g, ni + e) == d * q1);
    assert(int_part(g, ni + cap + 1) == d * q2);
    assert(!rounds_up(g, ni + e) && !rounds_up(g, ni + cap + 1));
    if d > 0 {
        assert(d * q1 >= q1) by (nonlinear_arith)
            requires d >= 1;
        assert(d * q2 >= q2) by (nonlinear_arith)
            requires d >= 1;
    } else {
        assert(d * q1 == 0 && d * q2 == 0) by (nonlinear_arith)
            requires d == 0;
    }
}

fn letter_match(c: char, l: char) -> (r: bool)
    ensures
        r == letter_is(c, l),
{
    c == l || c as u32 + 32 == l as u32
}

/// `t[a..]` spells `w` ignoring case.
fn tail_is_word(t: &str, a: usize, w: &str) -> (r: bool)
    requires
        a <= t@.len(),
    ensures
        r == word_ci(t@.subrange(a as int, t@.len() as int), w@),
{
    let n = t.unicode_len();
    let m = w.unicode_len();
    if n - a != m {
        return false;
    }
    let mut k: usize = 0;
    while k < m
        invariant
            n == t@.len(),
            m == w@.len(),
            a + m == n,
            k <= m,
            forall|q: int| 0 <= q < k ==> letter_is(t@[a + q], w@[q]),
        decreases m - k,
    {
        if !letter_match(t.get_char(a + k), w.get_char(k)) {
            assert(!letter_is(t@.subrange(a as int, n as int)[k as int], w@[k as int]));
            return false;
        }
        k = k + 1;
    }
    assert forall|q: int| 0 <= q < m implies letter_is(#[trigger] t@.subrange(a as int, n as int)[q], w@[q]) by {
        assert(t@.subrange(a as int, n as int)[q] == t@[a + q]);
    }
    true
}

fn scan_digits(t: &str, i: usize) -> (r: usize)
    requires
        i <= t@.len(),
    ensures
        r == digits_end(t@, i as int),
        i <= r <= t@.len(),
{
    proof {
        lemma_digits_end(t@, i as int);
    }
    let n = t.unicode_len();
    let mut j = i;
    while j < n && ('0' <= t.get_char(j) && t.get_char(j) <= '9')
        invariant
            n == t@.len(),
            i <= j <= n,
            digits_end(t@, i as int) == digits_end(t@, j as int),
        decreases n - j,
    {
        j = j + 1;
    }
    j
}

/// `min(value of t[ea..e_end], cap + 1)`.
fn capped_exponent(t: &str, ea: usize, e_end: usize, cap: u128) -> (r: u128)
    requires
        ea <= e_end <= t@.len(),
        forall|k: int| ea <= k < e_end ==> is_ascii_digit(#[trigger] t@[k]),
        cap < u128::MAX / 20,
    ensures
        r == if dec_val(t@, ea as int, e_end as int) > cap { cap + 1 } else { dec_val(t@, ea as int, e_end as int) as int },
{
    let mut acc: u128 = 0;
    let mut k = ea;
    while k < e_end
        invariant
            ea <= k <= e_end <= t@.len(),
            forall|q: int| ea <= q < e_end ==> is_ascii_digit(#[trigger] t@[q]),
            cap < u128::MAX / 20,
            acc == if dec_val(t@, ea as int, k as int) > cap { cap + 1 } else { dec_val(t@, ea as int, k as int) as int },
        decreases e_end - k,
    {
        let d = (t.get_char(k) as u32 - 48) as u128;
        assert(is_ascii_digit(t@[k as int]));
        assert(dec_val(t@, ea as int, k + 1) == dec_val(t@, ea as int, k as int) * 10 + d);
        if acc > cap {
            acc = cap + 1;
        } else {
            let v = acc * 10 + d;
            acc = if v > cap { cap + 1 } else { v };
        }
        k = k + 1;
    }
    acc
}

/// `rounded(g, p)` for `p` within `[-cap - 1, g.len() + cap + 1]`.
fn round_at(g: &Vec<char>, p: i128) -> (r: u64)
    requires
        forall|k: int| 0 <= k < g@.len() ==> is_ascii_digit(#[trigger] g@[k]),
        -(u64::MAX as int) * 4 <= p <= (u64::MAX as int) * 4,
    ensures
        r == rounded(g@, p as int),
{
    let m = g.len();
    let mut acc: u64 = 0;
    let mut sat = false;
    if p > 0 {
        let lim: usize = if p < m as i128 { p as usize } else { m };
        let mut k: usize = 0;
        while k < lim
            invariant
                lim <= m == g@.len(),
                k <= lim,
                forall|q: int| 0 <= q < g@.len() ==> is_ascii_digit(#[trigger] g@[q]),
                !sat ==> acc == dec_val(g@, 0, k as int),
                sat ==> dec_val(g@, 0, k as int) > u64::MAX,
            decreases lim - k,
        {
            let d = (g[k] as u32 - 48) as u64;
            assert(is_ascii_digit(g@[k as int]));
            assert(dec_val(g@, 0, k + 1) == dec_val(g@, 0, k as int) * 10 + d);
            if !sat {
                if acc <= (u64::MAX - d) / 10 {
                    assert(acc * 10 + d <= u64::MAX) by (nonlinear_arith)
                        requires acc <= (u64::MAX - d) / 10, d <= 9;
                    acc = acc * 10 + d;
                } else {
                    assert(acc * 10 + d > u64::MAX) by (nonlinear_arith)
                        requires acc > (u64::MAX - d) / 10, d <= 9;
                    sat = true;
                }
            }
            k = k + 1;
        }
        if p > m as i128 {
            let extra: u128 = (p - m as i128) as u128;
            let ghost dv = dec_val(g@, 0, m as int);
            assert(lim == m);
            assert(pow10(0) == 1);
            assert(dv * 1 == dv);
            let mut j: u128 = 0;
            while j < extra
                invariant
                    j <= extra,
                    !sat ==> acc == dv * pow10(j as nat),
                    sat ==> dv * pow10(j as nat) > u64::MAX,
                decreases extra - j,
            {
                let ghost pj = pow10(j as nat);
                assert(pow10((j + 1) as nat) == 10 * pj);
                if !sat {
                    if acc <= u64::MAX / 10 {
                        assert(dv * (10 * pj) == 10 * (dv * pj)) by (nonlinear_arith);
                        acc = acc * 10;
                    } else {
                        assert(dv * (10 * pj) == 10 * (dv * pj)) by (nonlinear_arith);
                        sat = true;
                    }
                } else {
                    assert(dv * (10 * pj) >= dv * pj) by (nonlinear_arith)
                        requires dv * pj > u64::MAX, pj >= 0, dv >= 0;
                    assert(dv * (10 * pj) == 10 * (dv * pj)) by (nonlinear_arith);
                }
                j = j + 1;
            }
        }
    }
    let up: u64 = if 0 <= p && p < m as i128 && g[p as usize] as u32 >= 53 { 1 } else { 0 };
    if sat || acc > u64::MAX - up {
        u64::MAX
    } else {
        acc + up
    }
}

/// The digits `t[a..i_end] + t[f_start..f_end]`, all ASCII digits.
fn mantissa(t: &str, a: usize, i_end: usize, f_start: usize, f_end: usize) -> (g: Vec<char>)
    requires
        a <= i_end <= f_start <= f_end <= t@.len(),
        forall|q: int| a <= q < i_end ==> is_ascii_digit(#[trigger] t@[q]),
        forall|q: int| f_start <= q < f_end ==> is_ascii_digit(#[trigger] t@[q]),
    ensures
        g@ == t@.subrange(a as int, i_end as int) + t@.subrange(f_start as int, f_end as int),
        forall|q: int| 0 <= q < g@.len() ==> is_ascii_digit(#[trigger] g@[q]),
{
    let mut g: Vec<char> = Vec::new();
    let mut k = a;
    while k < i_end
        invariant
            a <= k <= i_end <= t@.len(),
            forall|q: int| a <= q < i_end ==> is_ascii_digit(#[trigger] t@[q]),
            g@ == t@.subrange(a as int, k as int),
        decreases i_end - k,
    {
        g.push(t.get_char(k));
        assert(g@ =~= t@.subrange(a as int, k + 1));
        k = k + 1;
    }
    let mut k = f_start;
    while k < f_end
        invariant
            f_start <= k <= f_end <= t@.len(),
            a <= i_end <= t@.len(),
            g@ == t@.subrange(a as int, i_end as int) + t@.subrange(f_start as int, k as int),
        decreases f_end - k,
    {
        g.push(t.get_char(k));
        assert(g@ =~= t@.subrange(a as int, i_end as int) + t@.subrange(f_start as int, k + 1));
        k = k + 1;
    }
    let ghost gs = g@;
    assert forall|q: int| 0 <= q < gs.len() implies is_ascii_digit(#[trigger] gs[q]) by {
        if q < i_end - a {
            assert(gs[q] == t@[a + q]);
        } else {
            assert(gs[q] == t@[f_start + (q - (i_end - a))]);
        }
    }
    g
}

#[verifier::rlimit(60)]
fn parse_number(t: &str, a: usize, neg: bool) -> (r: Option<u64>)
    requires
        a <= 1,
        a <= t@.len(),
    ensures
        r == number_round(t@, a as int, neg),
{
    let n = t.unicode_len();
    let i_end = scan_digits(t, a);
    let has_dot = i_end < n && t.get_char(i_end) == '.';
    let f_start = if has_dot { i_end + 1 } else { i_end };
    let f_end = scan_digits(t, f_start);
    proof {
        lemma_digits_end(t@, a as int);
        lemma_digits_end(t@, f_start as int);
    }
    let g = mantissa(t, a, i_end, f_start, f_end);
    let ghost gs = g@;
    let has_e = f_end < n && (t.get_char(f_end) == 'e' || t.get_char(f_end) == 'E');
    let es = if has_e { f_end + 1 } else { f_end };
    let signed_e = has_e && es < n && (t.get_char(es) == '+' || t.get_char(es) == '-');
    let ea = if signed_e { es + 1 } else { es };
    let e_end = if has_e { scan_digits(t, ea) } else { f_end };
    if g.len() < 1 {
        return None;
    }
    if has_e {
        if !(e_end > ea && e_end == n) {
            return None;
        }
    } else if f_end != n {
        return None;
    }
    if neg {
        return Some(0);
    }
    let m = g.len();
    let ni = i_end - a;
    let mut p: i128 = ni as i128;
    if has_e {
        proof {
            lemma_digits_end(t@, ea as int);
        }
        let cap: u128 = m as u128 + 22;
        let ec = capped_exponent(t, ea, e_end, cap);
        let minus = signed_e && t.get_char(es) == '-';
        p = if minus { ni as i128 - ec as i128 } else { ni as i128 + ec as i128 };
        proof {
            let ev = dec_val(t@, ea as int, e_end as int) as int;
            if ev > cap {
                lemma_far_point(gs, ni as int, ev, cap as int);
            }
        }
    }
    Some(round_at(&g, p))
}

/// Reads `t` as [`decimal_round`] describes.
pub fn round_decimal(t: &str) -> (r: Option<u64>)
    ensures
        r == decimal_round(t@),
{
    proof {
        reveal_strlit("nan");
        reveal_strlit("inf");
        reveal_strlit("infinity");
        assert("nan"@ =~= nan_word());
        assert("inf"@ =~= inf_word());
        assert("infinity"@ =~= infinity_word());
    }
    let n = t.unicode_len();
    let neg = n > 0 && t.get_char(0) == '-';
    let a: usize = if n > 0 && (t.get_char(0) == '+' || t.get_char(0) == '-') { 1 } else { 0 };
    if tail_is_word(t, a, "nan") {
        return Some(0);
    }
    if tail_is_word(t, a, "inf") || tail_is_word(t, a, "infinity") {
        return Some(if neg { 0 } else { u64::MAX });
    }
    parse_number(t, a, neg)
}

/// The round-trip time in milliseconds in one line of ping output, rounded
/// to the nearest millisecond; `None` when the line holds no readable time.
/// The value is the rounded exact decimal ([`ping_time_exact`]); it is stated
/// as the time only where that agrees with reading the number as an `f64`.
pub fn parse_ping_time(output: &str) -> (r: Option<u64>)
    ensures
        r.is_some() == ping_time_exact(output@).is_some(),
        ping_time_agrees(output@) ==> r == ping_time_exact(output@),
{
    proof {
        reveal_strlit("time");
        reveal_strlit("ms");
        reveal_strlit(" ");
        reveal_strlit("=");
        reveal_strlit("<");
        assert("time"@ =~= seq!['t', 'i', 'm', 'e']);
        assert("ms"@ =~= seq!['m', 's']);
        assert(" "@ =~= seq![' ']);
        assert("="@ =~= seq!['=']);
        assert("<"@ =~= seq!['<']);
    }
    let pos = match find_text(output, "time") {
        Some(p) => p,
        None => {
            return None;
        },
    };
    let n = output.unicode_len();
    let part = output.substring_char(pos, n);
    let end = match find_text(part, "ms") {
        Some(e) => e,
        None => match find_text(part, " ") {
            Some(e) => e,
            None => {
                return None;
            },
        },
    };
    let seg = part.substring_char(0, end);
    let no_time = remove_all(seg, "time");
    let no_eq = remove_all(no_time.as_str(), "=");
    let no_lt = remove_all(no_eq.as_str(), "<");
    round_decimal(trim(no_lt.as_str()))
}

} // verus!
