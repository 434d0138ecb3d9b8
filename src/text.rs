//! Character-level text operations with the meaning Rust's `str` gives
//! them: trimming Unicode whitespace, removing a pattern, and reading an
//! unsigned decimal number.
use vstd::prelude::*;

verus! {

/// The characters with the Unicode `White_Space` property.
pub open spec fn is_white(c: char) -> bool {
    let u = c as u32;
    (9 <= u && u <= 13) || u == 32 || u == 0x85 || u == 0xa0 || u == 0x1680
        || (0x2000 <= u && u <= 0x200a) || u == 0x2028 || u == 0x2029 || u == 0x202f
        || u == 0x205f || u == 0x3000
}

pub fn white(c: char) -> (r: bool)
    ensures
        r == is_white(c),
{
    let u = c as u32;
    (9 <= u && u <= 13) || u == 32 || u == 0x85 || u == 0xa0 || u == 0x1680
        || (0x2000 <= u && u <= 0x200a) || u == 0x2028 || u == 0x2029 || u == 0x202f
        || u == 0x205f || u == 0x3000
}

/// Index of the first non-white character of `s` from `i` on.
pub open spec fn lo_from(s: Seq<char>, i: int) -> int
    decreases s.len() - i,
{
    if 0 <= i < s.len() && is_white(s[i]) { lo_from(s, i + 1) } else { i }
}

/// End of `s[lo..j]` once trailing white characters are dropped.
pub open spec fn hi_from(s: Seq<char>, lo: int, j: int) -> int
    decreases j,
{
    if lo < j && 0 < j <= s.len() && is_white(s[j - 1]) { hi_from(s, lo, j - 1) } else { j }
}

/// `s` without leading and trailing whitespace.
pub open spec fn trim_chars(s: Seq<char>) -> Seq<char> {
    let lo = lo_from(s, 0);
    s.subrange(lo, hi_from(s, lo, s.len() as int))
}

/// `s` without leading and trailing whitespace.
pub fn trim(s: &str) -> (r: &str)
    ensures
        r@ == trim_chars(s@),
{
    let n = s.unicode_len();
    let mut lo: usize = 0;
    while lo < n && white(s.get_char(lo))
        invariant
            n == s@.len(),
            lo <= n,
            lo_from(s@, 0) == lo_from(s@, lo as int),
        decreases n - lo,
    {
        lo = lo + 1;
    }
    let mut hi: usize = n;
    while hi > lo && white(s.get_char(hi - 1))
        invariant
            n == s@.len(),
            lo <= hi <= n,
            hi_from(s@, lo as int, n as int) == hi_from(s@, lo as int, hi as int),
        decreases hi,
    {
        hi = hi - 1;
    }
    s.substring_char(lo, hi)
}

/// `pat` occurs in `s` at `i`.
pub open spec fn chars_at(s: Seq<char>, pat: Seq<char>, i: int) -> bool {
    0 <= i && i + pat.len() <= s.len() && s.subrange(i, i + pat.len()) == pat
}

/// `s[i..]` with every occurrence of `pat`, scanned left to right, removed.
pub open spec fn without_from(s: Seq<char>, pat: Seq<char>, i: int) -> Seq<char>
    decreases s.len() - i,
{
    if i < 0 || i >= s.len() {
        Seq::empty()
    } else if pat.len() > 0 && chars_at(s, pat, i) {
        without_from(s, pat, i + pat.len())
    } else {
        seq![s[i]] + without_from(s, pat, i + 1)
    }
}

pub fn chars_match(s: &str, pat: &str, i: usize) -> (r: bool)
    requires
        i + pat@.len() <= s@.len(),
    ensures
        r == chars_at(s@, pat@, i as int),
{
    let m = pat.unicode_len();
    let n = s.unicode_len();
    let mut j: usize = 0;
    while j < m
        invariant
            m == pat@.len(),
            n == s@.len(),
            i + m <= s@.len(),
            j <= m,
            forall|k: int| 0 <= k < j ==> s@[i + k] == pat@[k],
        decreases m - j,
    {
        if s.get_char(i + j) != pat.get_char(j) {
            proof {
                let sub = s@.subrange(i as int, i + m);
                assert(sub[j as int] != pat@[j as int]);
            }
            return false;
        }
        j = j + 1;
    }
    assert(s@.subrange(i as int, i + m) =~= pat@);
    true
}

/// `s` with every occurrence of `pat` removed, as `str::replace(pat, "")`.
pub fn remove_all(s: &str, pat: &str) -> (r: String)
    requires
        pat@.len() > 0,
    ensures
        r@ == without_from(s@, pat@, 0),
{
    let n = s.unicode_len();
    let m = pat.unicode_len();
    let mut out = String::new();
    let mut i: usize = 0;
    let mut run_start: usize = 0;
    while i < n
        invariant
            n == s@.len(),
            m == pat@.len(),
            m > 0,
            run_start <= i <= n,
            out@ + s@.subrange(run_start as int, i as int) + without_from(s@, pat@, i as int) == without_from(s@, pat@, 0),
        decreases n - i,
    {
        if m <= n - i && chars_match(s, pat, i) {
            let piece = s.substring_char(run_start, i);
            proof {
                assert(out@ + piece@ + without_from(s@, pat@, i + m) =~= out@ + s@.subrange(run_start as int, i as int) + without_from(s@, pat@, i as int));
            }
            out.append(piece);
            i = i + m;
            run_start = i;
            proof {
                assert(s@.subrange(run_start as int, i as int) =~= Seq::<char>::empty());
                assert(out@ + s@.subrange(run_start as int, i as int) =~= out@);
            }
        } else {
            proof {
                assert(out@ + s@.subrange(run_start as int, i + 1) + without_from(s@, pat@, i + 1) =~= out@ + s@.subrange(run_start as int, i as int) + (seq![s@[i as int]] + without_from(s@, pat@, i + 1)));
            }
            i = i + 1;
        }
    }
    let piece = s.substring_char(run_start, n);
    proof {
        assert(out@ + piece@ =~= out@ + s@.subrange(run_start as int, n as int) + Seq::<char>::empty());
    }
    out.append(piece);
    out
}

pub open spec fn is_ascii_digit(c: char) -> bool {
    '0' <= c && c <= '9'
}

/// The decimal value of the ASCII digits `s[i..j]`.
pub open spec fn dec_val(s: Seq<char>, i: int, j: int) -> nat
    decreases j - i,
{
    if j <= i {
        0
    } else {
        (dec_val(s, i, j - 1) * 10 + (s[j - 1] as u32 - 48)) as nat
    }
}

/// What `str::parse` gives for an unsigned integer type whose largest value
/// is `max`: an optional `+`, then one or more ASCII digits, whose value must
/// not exceed `max`.
pub open spec fn unsigned_of(s: Seq<char>, max: nat) -> Option<nat> {
    let a: int = if s.len() > 0 && s[0] == '+' { 1 } else { 0 };
    if s.len() > a && (forall|k: int| a <= k < s.len() ==> is_ascii_digit(#[trigger] s[k]))
        && dec_val(s, a, s.len() as int) <= max {
        Some(dec_val(s, a, s.len() as int))
    } else {
        None
    }
}

proof fn lemma_dec_grow(s: Seq<char>, a: int, j: int, n: int)
    requires
        a <= j <= n <= s.len(),
        forall|k: int| a <= k < n ==> is_ascii_digit(#[trigger] s[k]),
    ensures
        dec_val(s, a, j) <= dec_val(s, a, n),
    decreases n - j,
{
    if j < n {
        lemma_dec_grow(s, a, j + 1, n);
        assert(is_ascii_digit(s[j]));
    }
}

/// Reads `s` as an unsigned number no larger than `max`.
pub fn parse_unsigned(s: &str, max: u64) -> (r: Option<u64>)
    ensures
        match r {
            Some(v) => unsigned_of(s@, max as nat) == Some(v as nat),
            None => unsigned_of(s@, max as nat).is_none(),
        },
{
    let n = s.unicode_len();
    let a: usize = if n > 0 && s.get_char(0) == '+' { 1 } else { 0 };
    if n <= a {
        return None;
    }
    let ghost sa: int = if n > 0 && s@[0] == '+' { 1 } else { 0 };
    assert(a == sa);
    let mut k: usize = a;
    while k < n
        invariant
            n == s@.len(),
            a == sa,
            sa == (if n > 0 && s@[0] == '+' { 1int } else { 0 }),
            a <= k <= n,
            forall|q: int| a <= q < k ==> is_ascii_digit(#[trigger] s@[q]),
        decreases n - k,
    {
        let c = s.get_char(k);
        if !('0' <= c && c <= '9') {
            assert(!is_ascii_digit(s@[k as int]));
            return None;
        }
        k = k + 1;
    }
    let mut acc: u64 = 0;
    let mut i: usize = a;
    while i < n
        invariant
            n == s@.len(),
            a == sa,
            sa == (if n > 0 && s@[0] == '+' { 1int } else { 0 }),
            a <= i <= n,
            forall|q: int| a <= q < n ==> is_ascii_digit(#[trigger] s@[q]),
            acc == dec_val(s@, a as int, i as int),
            acc <= max,
        decreases n - i,
    {
        let c = s.get_char(i);
        assert(is_ascii_digit(s@[i as int]));
        let d = (c as u32 - 48) as u64;
        if d > max || acc > (max - d) / 10 {
            proof {
                if d <= max {
                    assert(acc * 10 + d > max) by (nonlinear_arith)
                        requires
                            acc > (max - d) / 10,
                            d <= 9,
                    ;
                }
                assert(dec_val(s@, a as int, i + 1) == acc * 10 + d);
                lemma_dec_grow(s@, a as int, i + 1, n as int);
            }
            return None;
        }
        assert(acc * 10 + d <= max) by (nonlinear_arith)
            requires
                acc <= (max - d) / 10,
                d <= max,
        ;
        acc = acc * 10 + d;
        i = i + 1;
    }
    Some(acc)
}

/// `a` and `b` hold the same characters.
pub fn same_text(a: &str, b: &str) -> (r: bool)
    ensures
        r == (a@ == b@),
{
    let n = a.unicode_len();
    if n != b.unicode_len() {
        return false;
    }
    let mut i: usize = 0;
    while i < n
        invariant
            n == a@.len(),
            n == b@.len(),
            i <= n,
            forall|k: int| 0 <= k < i ==> a@[k] == b@[k],
        decreases n - i,
    {
        if a.get_char(i) != b.get_char(i) {
            return false;
        }
        i = i + 1;
    }
    assert(a@ =~= b@);
    true
}

/// Index of the first `c` in `s` from `i` on, or the length of `s`.
pub open spec fn char_from(s: Seq<char>, c: char, i: int) -> int
    decreases s.len() - i,
{
    if i < 0 || i >= s.len() || s[i] == c { i } else { char_from(s, c, i + 1) }
}

pub proof fn lemma_char_from(s: Seq<char>, c: char, i: int)
    requires
        0 <= i <= s.len(),
    ensures
        i <= char_from(s, c, i) <= s.len(),
        char_from(s, c, i) < s.len() ==> s[char_from(s, c, i)] == c,
    decreases s.len() - i,
{
    if i < s.len() && s[i] != c {
        lemma_char_from(s, c, i + 1);
    }
}

pub fn find_char(s: &str, c: char, i: usize) -> (r: usize)
    requires
        i <= s@.len(),
    ensures
        r == char_from(s@, c, i as int),
        i <= r <= s@.len(),
{
    proof {
        lemma_char_from(s@, c, i as int);
    }
    let n = s.unicode_len();
    let mut j = i;
    while j < n && s.get_char(j) != c
        invariant
            n == s@.len(),
            i <= j <= n,
            char_from(s@, c, i as int) == char_from(s@, c, j as int),
        decreases n - j,
    {
        j = j + 1;
    }
    j
}

/// First index in `[i, len)` whose character is not whitespace, or the length.
pub open spec fn skip_white(s: Seq<char>, i: int) -> int
    decreases s.len() - i,
{
    if 0 <= i < s.len() && is_white(s[i]) { skip_white(s, i + 1) } else { i }
}

/// First index in `[i, len)` whose character is whitespace, or the length.
pub open spec fn skip_token(s: Seq<char>, i: int) -> int
    decreases s.len() - i,
{
    if 0 <= i < s.len() && !is_white(s[i]) { skip_token(s, i + 1) } else { i }
}

/// The whitespace-separated words of `s[i..]`, as `str::split_whitespace`.
pub open spec fn words_from(s: Seq<char>, i: int) -> Seq<Seq<char>>
    decreases s.len() - i,
{
    let a = skip_white(s, i);
    let b = skip_token(s, a);
    if i < 0 || a >= s.len() || b <= i || b > s.len() {
        Seq::empty()
    } else {
        seq![s.subrange(a, b)] + words_from(s, b)
    }
}

proof fn lemma_skips(s: Seq<char>, i: int)
    requires
        0 <= i <= s.len(),
    ensures
        i <= skip_white(s, i) <= s.len(),
        i <= skip_token(s, i) <= s.len(),
    decreases s.len() - i,
{
    if i < s.len() {
        lemma_skips(s, i + 1);
    }
}

pub fn words(s: &str) -> (r: Vec<&str>)
    ensures
        r@.len() == words_from(s@, 0).len(),
        forall|k: int| 0 <= k < r@.len() ==> r@[k]@ == words_from(s@, 0)[k],
{
    let n = s.unicode_len();
    let mut out: Vec<&str> = Vec::new();
    let mut i: usize = 0;
    while i < n
        invariant
            n == s@.len(),
            i <= n,
            out@.len() + words_from(s@, i as int).len() == words_from(s@, 0).len(),
            forall|k: int| 0 <= k < out@.len() ==> out@[k]@ == words_from(s@, 0)[k],
            forall|k: int| 0 <= k < words_from(s@, i as int).len() ==>
                words_from(s@, i as int)[k] == words_from(s@, 0)[out@.len() + k],
        decreases n - i,
    {
        proof {
            lemma_skips(s@, i as int);
        }
        let mut a = i;
        while a < n && white(s.get_char(a))
            invariant
                n == s@.len(),
                i <= a <= n,
                skip_white(s@, i as int) == skip_white(s@, a as int),
            decreases n - a,
        {
            a = a + 1;
        }
        if a >= n {
            assert(words_from(s@, i as int) =~= Seq::<Seq<char>>::empty());
            assert(words_from(s@, n as int) =~= Seq::<Seq<char>>::empty());
            i = n;
            continue;
        }
        proof {
            lemma_skips(s@, a as int);
        }
        let mut b = a;
        while b < n && !white(s.get_char(b))
            invariant
                n == s@.len(),
                a <= b <= n,
                skip_token(s@, a as int) == skip_token(s@, b as int),
            decreases n - b,
        {
            b = b + 1;
        }
        let w = s.substring_char(a, b);
        proof {
            let rest = words_from(s@, i as int);
            assert(rest == seq![s@.subrange(a as int, b as int)] + words_from(s@, b as int));
            assert(rest[0] == w@);
            assert forall|k: int| 0 <= k < words_from(s@, b as int).len() implies
                words_from(s@, b as int)[k] == words_from(s@, 0)[out@.len() + 1 + k] by {
                assert(words_from(s@, b as int)[k] == rest[k + 1]);
            }
        }
        out.push(w);
        i = b;
    }
    proof {
        if i >= n {
            assert(words_from(s@, i as int) =~= Seq::<Seq<char>>::empty());
        }
    }
    out
}

} // verus!
