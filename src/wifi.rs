//! Reading the active Wi-Fi link out of the text that Windows'
//! `netsh wlan show interfaces` prints.
use vstd::prelude::*;
use crate::results::WifiInfo;
use crate::text::{char_from, find_char, parse_unsigned, remove_all, trim, trim_chars, unsigned_of, without_from};

verus! {

/// What has been read so far: SSID, BSSID, signal quality, channel.
pub struct WifiFields {
    pub ssid: Seq<char>,
    pub bssid: Seq<char>,
    pub quality: u8,
    pub channel: u32,
}

pub open spec fn unknown_text() -> Seq<char> {
    seq!['U', 'n', 'k', 'n', 'o', 'w', 'n']
}

pub open spec fn starts_with(t: Seq<char>, p: Seq<char>) -> bool {
    t.len() >= p.len() && t.subrange(0, p.len() as int) == p
}

/// The second `:`-separated field of `t`, if `t` has a `:`.
pub open spec fn second_field(t: Seq<char>) -> Option<Seq<char>> {
    let c = char_from(t, ':', 0);
    if c >= t.len() {
        None
    } else {
        Some(t.subrange(c + 1, char_from(t, ':', c + 1)))
    }
}

/// Everything after the first `:` of `t`; empty without one.
pub open spec fn after_colon(t: Seq<char>) -> Seq<char> {
    let c = char_from(t, ':', 0);
    if c >= t.len() { Seq::empty() } else { t.subrange(c + 1, t.len() as int) }
}

pub open spec fn field_or(t: Seq<char>, d: Seq<char>) -> Seq<char> {
    match second_field(t) {
        Some(f) => f,
        None => d,
    }
}

/// The fields after reading one trimmed line `t`.
pub open spec fn wifi_line(w: WifiFields, t: Seq<char>) -> WifiFields {
    let ssid = if starts_with(t, seq!['S', 'S', 'I', 'D']) && !starts_with(t, seq!['B', 'S', 'S', 'I', 'D']) {
        trim_chars(field_or(t, unknown_text()))
    } else {
        w.ssid
    };
    let bssid = if starts_with(t, seq!['B', 'S', 'S', 'I', 'D']) { trim_chars(after_colon(t)) } else { w.bssid };
    let quality = if starts_with(t, seq!['S', 'i', 'g', 'n', 'a', 'l']) {
        match unsigned_of(without_from(trim_chars(field_or(t, seq!['0'])), seq!['%'], 0), 255) {
            Some(v) => v as u8,
            None => 0,
        }
    } else {
        w.quality
    };
    let channel = if starts_with(t, seq!['C', 'h', 'a', 'n', 'n', 'e', 'l']) {
        match unsigned_of(trim_chars(field_or(t, seq!['0'])), u32::MAX as nat) {
            Some(v) => v as u32,
            None => 0,
        }
    } else {
        w.channel
    };
    WifiFields { ssid, bssid, quality, channel }
}

/// The fields after reading the lines of `s` from `i` on; later lines win.
pub open spec fn wifi_from(s: Seq<char>, i: int, w: WifiFields) -> WifiFields
    decreases s.len() - i,
{
    if i < 0 || i >= s.len() {
        w
    } else {
        let e = char_from(s, '\n', i);
        let next = wifi_line(w, trim_chars(s.subrange(i, e)));
        if e < i || e >= s.len() { next } else { wifi_from(s, e + 1, next) }
    }
}

pub open spec fn wifi_start() -> WifiFields {
    WifiFields { ssid: unknown_text(), bssid: unknown_text(), quality: 0, channel: 0 }
}

/// Signal quality in percent, turned into an approximate RSSI in dBm.
pub open spec fn rssi_of(quality: u8) -> i32 {
    (quality / 2 - 100) as i32
}

fn has_prefix(t: &str, p: &str) -> (r: bool)
    ensures
        r == starts_with(t@, p@),
{
    let n = t.unicode_len();
    let m = p.unicode_len();
    if m > n {
        return false;
    }
    let mut k: usize = 0;
    while k < m
        invariant
            n == t@.len(),
            m == p@.len(),
            m <= n,
            k <= m,
            forall|q: int| 0 <= q < k ==> t@[q] == p@[q],
        decreases m - k,
    {
        if t.get_char(k) != p.get_char(k) {
            assert(t@.subrange(0, m as int)[k as int] != p@[k as int]);
            return false;
        }
        k = k + 1;
    }
    assert(t@.subrange(0, m as int) =~= p@);
    true
}

fn second_field_of<'a>(t: &'a str, default: &'a str) -> (r: &'a str)
    ensures
        r@ == field_or(t@, default@),
{
    let n = t.unicode_len();
    let c = find_char(t, ':', 0);
    if c >= n {
        default
    } else {
        let d = find_char(t, ':', c + 1);
        t.substring_char(c + 1, d)
    }
}

/// The Wi-Fi fields that the `netsh` text `text` reports.
pub fn wifi_fields(text: &str) -> (r: (String, String, u8, u32))
    ensures
        ({
            let w = wifi_from(text@, 0, wifi_start());
            r.0@ == w.ssid && r.1@ == w.bssid && r.2 == w.quality && r.3 == w.channel
        }),
{
    proof {
        reveal_strlit("Unknown");
        reveal_strlit("SSID");
        reveal_strlit("BSSID");
        reveal_strlit("Signal");
        reveal_strlit("Channel");
        reveal_strlit("0");
        reveal_strlit("%");
    }
    let mut ssid = "Unknown".to_owned();
    let mut bssid = "Unknown".to_owned();
    let mut quality: u8 = 0;
    let mut channel: u32 = 0;
    assert(ssid@ =~= unknown_text());
    assert(bssid@ =~= unknown_text());
    assert("SSID"@ =~= seq!['S', 'S', 'I', 'D']);
    assert("BSSID"@ =~= seq!['B', 'S', 'S', 'I', 'D']);
    assert("Signal"@ =~= seq!['S', 'i', 'g', 'n', 'a', 'l']);
    assert("Channel"@ =~= seq!['C', 'h', 'a', 'n', 'n', 'e', 'l']);
    assert("0"@ =~= seq!['0']);
    assert("%"@ =~= seq!['%']);
    assert("Unknown"@ =~= unknown_text());
    let n = text.unicode_len();
    let mut i: usize = 0;
    while i < n
        invariant
            n == text@.len(),
            i <= n,
            "SSID"@ == seq!['S', 'S', 'I', 'D'],
            "BSSID"@ == seq!['B', 'S', 'S', 'I', 'D'],
            "Signal"@ == seq!['S', 'i', 'g', 'n', 'a', 'l'],
            "Channel"@ == seq!['C', 'h', 'a', 'n', 'n', 'e', 'l'],
            "0"@ == seq!['0'],
            "%"@ == seq!['%'],
            "Unknown"@ == unknown_text(),
            wifi_from(text@, 0, wifi_start()) == wifi_from(text@, i as int,
                WifiFields { ssid: ssid@, bssid: bssid@, quality, channel }),
        decreases n - i,
    {
        let e = find_char(text, '\n', i);
        let t = trim(text.substring_char(i, e));
        let ghost w0 = WifiFields { ssid: ssid@, bssid: bssid@, quality, channel };
        if has_prefix(t, "SSID") && !has_prefix(t, "BSSID") {
            ssid = trim(second_field_of(t, "Unknown")).to_owned();
        }
        if has_prefix(t, "BSSID") {
            let c = find_char(t, ':', 0);
            let tn = t.unicode_len();
            let rest: &str = if c >= tn { "" } else { t.substring_char(c + 1, tn) };
            proof {
                reveal_strlit("");
                if c >= tn {
                    assert(rest@ =~= Seq::<char>::empty());
                }
            }
            bssid = trim(rest).to_owned();
        }
        if has_prefix(t, "Signal") {
            let cleaned = remove_all(trim(second_field_of(t, "0")), "%");
            quality = match parse_unsigned(cleaned.as_str(), 255) {
                Some(v) => v as u8,
                None => 0,
            };
        }
        if has_prefix(t, "Channel") {
            channel = match parse_unsigned(trim(second_field_of(t, "0")), 0xffff_ffff) {
                Some(v) => v as u32,
                None => 0,
            };
        }
        assert(WifiFields { ssid: ssid@, bssid: bssid@, quality, channel } == wifi_line(w0, t@));
        if e >= n {
            i = n;
        } else {
            i = e + 1;
        }
    }
    (ssid, bssid, quality, channel)
}

/// The Wi-Fi link that the `netsh` text `text` describes.
pub fn wifi_from_netsh(text: &str) -> (r: WifiInfo)
    ensures
        ({
            let w = wifi_from(text@, 0, wifi_start());
            &&& r.ssid@ == w.ssid
            &&& r.bssid@ == w.bssid
            &&& r.signal_quality == w.quality
            &&& r.channel == w.channel
            &&& r.rssi == rssi_of(w.quality)
        }),
{
    let (ssid, bssid, quality, channel) = wifi_fields(text);
    WifiInfo { ssid, bssid, rssi: (quality / 2) as i32 - 100, signal_quality: quality, channel }
}


pub open spec fn linux_placeholder_ssid() -> Seq<char> {
    seq!['L', 'i', 'n', 'u', 'x', '_', 'D', 'e', 't', 'e', 'c', 't', 'e', 'd']
}

pub open spec fn linux_placeholder_bssid() -> Seq<char> {
    seq!['0', '0', ':', '0', '0', ':', '0', '0', ':', '0', '0', ':', '0', '0', ':', '0', '0']
}

/// Some line of `s`, from byte `i` on, trimmed, starts with `*`: `nmcli`
/// marks the connection in use that way.
pub open spec fn nmcli_in_use(s: Seq<char>, i: int) -> bool
    decreases s.len() - i,
{
    if i < 0 || i >= s.len() {
        false
    } else {
        let e = char_from(s, '\n', i);
        let t = trim_chars(s.subrange(i, e));
        if t.len() > 0 && t[0] == '*' {
            true
        } else if e < i || e >= s.len() {
            false
        } else {
            nmcli_in_use(s, e + 1)
        }
    }
}

/// On Linux only the presence of an in-use connection is read from
/// `nmcli`; the link is reported with fixed values: SSID `Linux_Detected`,
/// BSSID `00:00:00:00:00:00`, RSSI -50 dBm, quality 80, channel 1.
pub fn wifi_from_nmcli(text: &str) -> (r: Option<WifiInfo>)
    ensures
        nmcli_in_use(text@, 0) ==> (r matches Some(info) && {
            &&& info.ssid@ == linux_placeholder_ssid()
            &&& info.bssid@ == linux_placeholder_bssid()
            &&& info.rssi == -50
            &&& info.signal_quality == 80
            &&& info.channel == 1
        }),
        !nmcli_in_use(text@, 0) ==> r.is_none(),
{
    let n = text.unicode_len();
    let mut i: usize = 0;
    while i < n
        invariant
            n == text@.len(),
            i <= n,
            nmcli_in_use(text@, 0) == nmcli_in_use(text@, i as int),
        decreases n - i,
    {
        let e = find_char(text, '\n', i);
        let t = trim(text.substring_char(i, e));
        if t.unicode_len() > 0 && t.get_char(0) == '*' {
            proof {
                reveal_strlit("Linux_Detected");
                reveal_strlit("00:00:00:00:00:00");
            }
            let ssid = "Linux_Detected".to_owned();
            let bssid = "00:00:00:00:00:00".to_owned();
            assert(ssid@ =~= linux_placeholder_ssid());
            assert(bssid@ =~= linux_placeholder_bssid());
            return Some(WifiInfo { ssid, bssid, rssi: -50, signal_quality: 80, channel: 1 });
        }
        if e >= n {
            return None;
        }
        i = e + 1;
    }
    None
}

} // verus!
