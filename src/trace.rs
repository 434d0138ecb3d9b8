//! Reading one line of `traceroute` / `tracert` output into a hop record.
//! The hop pattern is written here and matched by the `regex` crate; what
//! the captures mean is decided here.
use vstd::prelude::*;
use crate::bytes::{contains_bytes, occurs_in};
use crate::results::TracerouteHop;
use crate::text::{parse_unsigned, remove_all, same_text, trim, trim_chars, unsigned_of, without_from};
use vstd::string::StringSliceAdditionalSpecFns;

verus! {

/// What the regular expression `pattern` captures on `line`: `None` when
/// the pattern does not compile or does not match; otherwise, for each group
/// in order (group 0 being the whole match), its text if it took part.
pub uninterp spec fn regex_captures(pattern: Seq<char>, line: Seq<char>) -> Option<Seq<Option<Seq<char>>>>;

pub open spec fn opt_chars(o: Option<String>) -> Option<Seq<char>> {
    match o {
        Some(s) => Some(s@),
        None => None,
    }
}

pub open spec fn groups_view(c: Seq<Option<String>>) -> Seq<Option<Seq<char>>> {
    Seq::new(c.len(), |i: int| opt_chars(c[i]))
}

/// Relies on `regex::Regex::new` and `regex::Regex::captures`: compiling
/// `pattern` and matching it against `line` depend on the two texts alone,
/// and the groups come out in order, each with its text when it took part.
#[verifier::external_body]
fn captures(pattern: &str, line: &str) -> (r: Option<Vec<Option<String>>>)
    ensures
        match r {
            Some(c) => regex_captures(pattern@, line@) == Some(groups_view(c@)),
            None => regex_captures(pattern@, line@).is_none(),
        },
{
    let re = regex::Regex::new(pattern).ok()?;
    let caps = re.captures(line)?;
    Some(caps.iter().map(|m| m.map(|m| m.as_str().to_string())).collect())
}

/// A hop line: the hop number, then three probe times (`N ms`, `<1 ms` or
/// `*`), then the rest of the line.
pub open spec fn hop_pattern() -> Seq<char> {
    seq!['^', '\\', 's', '*', '(', '\\', 'd', '+', ')', '\\', 's', '+', '(', '?', ':', '(', '\\', 'd', '+', '|', '<', '1', ')', '\\', 's', '*', 'm', 's', '|', '\\', '*', ')', '\\', 's', '+', '(', '?', ':', '(', '\\', 'd', '+', '|', '<', '1', ')', '\\', 's', '*', 'm', 's', '|', '\\', '*', ')', '\\', 's', '+', '(', '?', ':', '(', '\\', 'd', '+', '|', '<', '1', ')', '\\', 's', '*', 'm', 's', '|', '\\', '*', ')', '\\', 's', '+', '(', '.', '*', ')', '$']
}

/// The captures a hop line needs: group 1 (hop number), group 2 (first
/// time, absent for `*`) and group 5 (rest of the line), when 1 and 5 took
/// part.
pub open spec fn hop_groups(g: Option<Seq<Option<Seq<char>>>>) -> Option<(Seq<char>, Option<Seq<char>>, Seq<char>)> {
    match g {
        None => None,
        Some(c) => if c.len() > 5 && c[1].is_some() && c[5].is_some() {
            Some((c[1].unwrap(), c[2], c[5].unwrap()))
        } else {
            None
        },
    }
}

/// Three `*` separated by eight spaces: every probe of the hop timed out.
pub open spec fn all_stars() -> Seq<u8> {
    seq![42u8, 32, 32, 32, 32, 32, 32, 32, 32, 42, 32, 32, 32, 32, 32, 32, 32, 32, 42]
}

pub open spec fn request_timed_out() -> Seq<char> {
    seq!['R', 'e', 'q', 'u', 'e', 's', 't', ' ', 't', 'i', 'm', 'e', 'd', ' ', 'o', 'u', 't', '.']
}

pub open spec fn timed_out_text() -> Seq<char> {
    seq!['R', 'e', 'q', 'u', 'e', 's', 't', ' ', 'T', 'i', 'm', 'e', 'd', ' ', 'O', 'u', 't']
}

pub open spec fn timeout_status() -> Seq<char> {
    seq!['T', 'i', 'm', 'e', 'o', 'u', 't']
}

pub open spec fn success_status() -> Seq<char> {
    seq!['S', 'u', 'c', 'c', 'e', 's', 's']
}

/// The hop number: the digits read as a `u8`, or 0.
pub open spec fn hop_number(h: Seq<char>) -> u8 {
    match unsigned_of(h, 255) {
        Some(v) => v as u8,
        None => 0,
    }
}

/// The first time in milliseconds: `ms` removed, trimmed, read as a `u64`;
/// `None` for `*`, `<1`, or anything else that is not a number.
pub open spec fn hop_time(t: Option<Seq<char>>) -> Option<u64> {
    let raw = match t {
        Some(x) => x,
        None => seq!['*'],
    };
    match unsigned_of(trim_chars(without_from(raw, seq!['m', 's'], 0)), u64::MAX as nat) {
        Some(v) => Some(v as u64),
        None => None,
    }
}

/// The hop timed out: the line shows three stars, or the rest of the line
/// says the request timed out.
pub open spec fn hop_timed_out(line: Seq<u8>, rest: Seq<char>) -> bool {
    occurs_in(line, all_stars()) || trim_chars(rest) == request_timed_out()
}

/// `r` is the hop that line `line` (as bytes) with captures `hop`, `t` and
/// `rest` describes.
pub open spec fn is_hop_of(r: TracerouteHop, line: Seq<u8>, hop: Seq<char>, t: Option<Seq<char>>, rest: Seq<char>) -> bool {
    let out = hop_timed_out(line, rest);
    &&& r.hop == hop_number(hop)
    &&& r.ip@ == (if out { timed_out_text() } else { trim_chars(rest) })
    &&& r.host_name.is_none()
    &&& r.time_ms == hop_time(t)
    &&& r.status@ == (if out { timeout_status() } else { success_status() })
}

pub open spec fn opt_str(o: Option<&str>) -> Option<Seq<char>> {
    match o {
        Some(s) => Some(s@),
        None => None,
    }
}

fn stars_bytes() -> (r: Vec<u8>)
    ensures
        r@ == all_stars(),
{
    let r = vec![42u8, 32, 32, 32, 32, 32, 32, 32, 32, 42, 32, 32, 32, 32, 32, 32, 32, 32, 42];
    assert(r@ =~= all_stars());
    r
}

/// The hop record for a line whose hop pattern captured `hop`, `first_time`
/// and `rest`.
pub fn hop_from_captures(line: &str, hop: &str, first_time: Option<&str>, rest: &str) -> (r: TracerouteHop)
    ensures
        is_hop_of(r, line.spec_bytes(), hop@, opt_str(first_time), rest@),
{
    let number: u8 = match parse_unsigned(hop, 255) {
        Some(v) => v as u8,
        None => 0,
    };
    let ip = trim(rest);
    let stars = stars_bytes();
    let lit = "Request timed out.";
    proof {
        reveal_strlit("Request timed out.");
        assert(lit@ =~= request_timed_out());
    }
    let out = contains_bytes(line.as_bytes(), stars.as_slice()) || same_text(ip, lit);
    let raw: &str = match first_time {
        Some(t) => t,
        None => "*",
    };
    proof {
        reveal_strlit("*");
        reveal_strlit("ms");
        assert("ms"@ =~= seq!['m', 's']);
        if first_time.is_none() {
            assert(raw@ =~= seq!['*']);
        }
    }
    let no_ms = remove_all(raw, "ms");
    let time_ms: Option<u64> = match parse_unsigned(trim(no_ms.as_str()), u64::MAX) {
        Some(v) => Some(v),
        None => None,
    };
    let ip_text: String = if out {
        proof {
            reveal_strlit("Request Timed Out");
        }
        let t = "Request Timed Out".to_owned();
        assert(t@ =~= timed_out_text());
        t
    } else {
        ip.to_owned()
    };
    let status: String = if out {
        proof {
            reveal_strlit("Timeout");
        }
        let t = "Timeout".to_owned();
        assert(t@ =~= timeout_status());
        t
    } else {
        proof {
            reveal_strlit("Success");
        }
        let t = "Success".to_owned();
        assert(t@ =~= success_status());
        t
    };
    TracerouteHop { hop: number, ip: ip_text, host_name: None, time_ms, status }
}

/// The hop record of one line of traceroute output, or `None` when the line
/// is not a hop line.
pub fn parse_hop_line(line: &str) -> (r: Option<TracerouteHop>)
    ensures
        match hop_groups(regex_captures(hop_pattern(), line@)) {
            None => r.is_none(),
            Some(c) => r matches Some(h) && is_hop_of(h, line.spec_bytes(), c.0, c.1, c.2),
        },
{
    let pattern = r"^\s*(\d+)\s+(?:(\d+|<1)\s*ms|\*)\s+(?:(\d+|<1)\s*ms|\*)\s+(?:(\d+|<1)\s*ms|\*)\s+(.*)$";
    proof {
        reveal_strlit(r"^\s*(\d+)\s+(?:(\d+|<1)\s*ms|\*)\s+(?:(\d+|<1)\s*ms|\*)\s+(?:(\d+|<1)\s*ms|\*)\s+(.*)$");
        assert(pattern@ =~= hop_pattern());
    }
    match captures(pattern, line) {
        None => None,
        Some(c) => {
            if c.len() <= 5 {
                return None;
            }
            let ghost g = groups_view(c@);
            match (&c[1], &c[5]) {
                (Some(hop), Some(rest)) => {
                    let t: Option<&str> = match &c[2] {
                        Some(s) => Some(s.as_str()),
                        None => None,
                    };
                    assert(g[1] == opt_chars(c@[1]));
                    assert(g[2] == opt_chars(c@[2]));
                    assert(g[5] == opt_chars(c@[5]));
                    Some(hop_from_captures(line, hop.as_str(), t, rest.as_str()))
                },
                _ => {
                    assert(g[1] == opt_chars(c@[1]));
                    assert(g[5] == opt_chars(c@[5]));
                    None
                },
            }
        },
    }
}

} // verus!
