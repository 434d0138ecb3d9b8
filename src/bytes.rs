//! Big-endian integers and byte-pattern search over raw frame bytes.
use vstd::prelude::*;

verus! {

/// `256` raised to `n`.
pub open spec fn pow256(n: nat) -> nat
    decreases n,
{
    if n == 0 {
        1
    } else {
        256 * pow256((n - 1) as nat)
    }
}

/// The unsigned integer that `s` spells in network (big-endian) byte order.
pub open spec fn be_nat(s: Seq<u8>) -> nat
    decreases s.len(),
{
    if s.len() == 0 {
        0
    } else {
        (be_nat(s.drop_last()) * 256 + s.last()) as nat
    }
}

/// The big-endian integer held by the `n` bytes of `data` from `start` on.
pub open spec fn be_at(data: Seq<u8>, start: int, n: int) -> nat {
    be_nat(data.subrange(start, start + n))
}

proof fn lemma_pow256_monotonic(i: nat, j: nat)
    requires
        i <= j,
    ensures
        pow256(i) <= pow256(j),
    decreases j,
{
    if i < j {
        lemma_pow256_monotonic(i, (j - 1) as nat);
    }
}

proof fn lemma_pow256_16()
    ensures
        pow256(16) == 0x1_0000_0000_0000_0000_0000_0000_0000_0000,
{
    reveal_with_fuel(pow256, 17);
}

/// Reads the `n`-byte big-endian integer at `data[start..start + n]`.
pub fn be_int(data: &[u8], start: usize, n: usize) -> (r: u128)
    requires
        n <= 16,
        start + n <= data@.len(),
    ensures
        r == be_at(data@, start as int, n as int),
        r < pow256(n as nat),
{
    let dlen = data.len();
    let mut r: u128 = 0;
    let mut i: usize = 0;
    while i < n
        invariant
            dlen == data@.len(),
            n <= 16,
            start + n <= data@.len(),
            i <= n,
            r == be_at(data@, start as int, i as int),
            r < pow256(i as nat),
        decreases n - i,
    {
        let b = data[start + i];
        proof {
            let s = data@.subrange(start as int, start + i + 1);
            assert(s.drop_last() =~= data@.subrange(start as int, start + i));
            assert(s.last() == b);
            lemma_pow256_monotonic((i + 1) as nat, 16);
            lemma_pow256_16();
            let p = pow256(i as nat);
            assert(r * 256 + b < p * 256) by (nonlinear_arith)
                requires
                    r < p,
                    b < 256,
            ;
        }
        r = r * 256 + b as u128;
        i = i + 1;
    }
    r
}

/// The unsigned integer that `s` spells in little-endian byte order.
pub open spec fn le_nat(s: Seq<u8>) -> nat
    decreases s.len(),
{
    if s.len() == 0 {
        0
    } else {
        (s[0] + 256 * le_nat(s.drop_first())) as nat
    }
}

/// The little-endian integer held by the `n` bytes of `data` from `start` on.
pub open spec fn le_at(data: Seq<u8>, start: int, n: int) -> nat {
    le_nat(data.subrange(start, start + n))
}

/// `pat` occurs in `s` starting at position `i`.
pub open spec fn occurs_at(s: Seq<u8>, pat: Seq<u8>, i: int) -> bool {
    0 <= i && i + pat.len() <= s.len() && s.subrange(i, i + pat.len()) == pat
}

/// `pat` occurs somewhere in `s`.
pub open spec fn occurs_in(s: Seq<u8>, pat: Seq<u8>) -> bool {
    exists|i: int| occurs_at(s, pat, i)
}

pub fn matches_at(s: &[u8], pat: &[u8], i: usize) -> (r: bool)
    requires
        i + pat@.len() <= s@.len(),
    ensures
        r == occurs_at(s@, pat@, i as int),
{
    let slen = s.len();
    let mut j: usize = 0;
    while j < pat.len()
        invariant
            slen == s@.len(),
            i + pat@.len() <= s@.len(),
            j <= pat@.len(),
            forall|k: int| 0 <= k < j ==> s@[i + k] == pat@[k],
        decreases pat@.len() - j,
    {
        if s[i + j] != pat[j] {
            proof {
                let sub = s@.subrange(i as int, i + pat@.len());
                assert(sub[j as int] != pat@[j as int]);
            }
            return false;
        }
        j = j + 1;
    }
    assert(s@.subrange(i as int, i + pat@.len()) =~= pat@);
    true
}

/// Whether `pat` occurs anywhere in `s`.
pub fn contains_bytes(s: &[u8], pat: &[u8]) -> (r: bool)
    ensures
        r == occurs_in(s@, pat@),
{
    if pat.len() > s.len() {
        return false;
    }
    let last = s.len() - pat.len();
    let mut i: usize = 0;
    while i < last
        invariant
            last + pat@.len() == s@.len(),
            i <= last,
            forall|k: int| 0 <= k < i ==> !occurs_at(s@, pat@, k),
        decreases last - i,
    {
        if matches_at(s, pat, i) {
            return true;
        }
        i = i + 1;
    }
    let r = matches_at(s, pat, last);
    assert(r || forall|k: int| !occurs_at(s@, pat@, k));
    r
}

} // verus!
