//! Reading the system ARP table and the local subnet for the LAN scan.
use vstd::prelude::*;
use crate::text::{char_from, find_char, same_text, words, words_from};
use vstd::string::StringSliceAdditionalSpecFns;

verus! {

/// The MAC address that the ARP table text `s` lists for `ip`, from
/// character `i` on: the second whitespace-separated word of the first line
/// whose first word is `ip`.
pub open spec fn arp_mac_from(s: Seq<char>, ip: Seq<char>, i: int) -> Option<Seq<char>>
    decreases s.len() - i,
{
    if i < 0 || i >= s.len() {
        None
    } else {
        let e = char_from(s, '\n', i);
        let ws = words_from(s.subrange(i, e), 0);
        if ws.len() >= 2 && ws[0] == ip {
            Some(ws[1])
        } else if e < i || e >= s.len() {
            None
        } else {
            arp_mac_from(s, ip, e + 1)
        }
    }
}

/// The MAC address that the ARP table text `table` lists for `ip`, if a
/// line's first word is `ip` and it has a second word.
pub fn mac_from_arp_table(table: &str, ip: &str) -> (r: Option<String>)
    ensures
        match arp_mac_from(table@, ip@, 0) {
            Some(m) => r matches Some(x) && x@ == m,
            None => r.is_none(),
        },
{
    let n = table.unicode_len();
    let mut i: usize = 0;
    while i < n
        invariant
            n == table@.len(),
            i <= n,
            arp_mac_from(table@, ip@, 0) == arp_mac_from(table@, ip@, i as int),
        decreases n - i,
    {
        let e = find_char(table, '\n', i);
        let ws = words(table.substring_char(i, e));
        if ws.len() >= 2 && same_text(ws[0], ip) {
            return Some(ws[1].to_owned());
        }
        if e >= n {
            return None;
        }
        i = e + 1;
    }
    None
}

/// Number of `.` bytes in `s[i..]`.
pub open spec fn dots_from(s: Seq<u8>, i: int) -> nat
    decreases s.len() - i,
{
    if i < 0 || i >= s.len() { 0 } else { dots_from(s, i + 1) + if s[i] == 46 { 1nat } else { 0 } }
}

/// The `a.b.c.` prefix length of `ip`, or `None` when `ip` does not have
/// exactly four dot-separated parts.
pub fn subnet_prefix_len(ip: &str) -> (r: Option<usize>)
    ensures
        match r {
            Some(k) => dots_from(ip.spec_bytes(), 0) == 3 && 0 < k <= ip.spec_bytes().len()
                && ip.spec_bytes()[k - 1] == 46 && dots_from(ip.spec_bytes(), k as int) == 0,
            None => dots_from(ip.spec_bytes(), 0) != 3,
        },
{
    let s = ip.as_bytes();
    let n = s.len();
    let mut i: usize = n;
    let mut seen: usize = 0;
    let mut last_dot: usize = 0;
    while i > 0
        invariant
            n == s@.len(),
            i <= n,
            seen == dots_from(s@, i as int),
            seen <= n - i,
            seen > 0 ==> i < last_dot <= n && s@[last_dot - 1] == 46 && dots_from(s@, last_dot as int) == 0,
        decreases i,
    {
        i = i - 1;
        if s[i] == 46 {
            if seen == 0 {
                last_dot = i + 1;
            }
            seen = seen + 1;
        }
    }
    if seen == 3 {
        Some(last_dot)
    } else {
        None
    }
}

} // verus!
