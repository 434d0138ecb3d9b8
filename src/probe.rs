//! Verdicts of the probing utilities, read from the text that the system's
//! `ping` prints: whether a reply came back, whether a payload size passed
//! unfragmented, and the mean of the round-trip times.
use vstd::prelude::*;
use crate::bytes::{contains_bytes, occurs_in};
use vstd::string::StringSliceAdditionalSpecFns;

verus! {

/// How many payload sizes the MTU search tries.
pub const MTU_PROBES: usize = 5;
/// IPv4 and ICMP header bytes added to a ping payload.
pub const PING_OVERHEAD: u16 = 28;

/// The bytes of `Reply from`.
pub open spec fn reply_from_word() -> Seq<u8> {
    seq![82u8, 101, 112, 108, 121, 32, 102, 114, 111, 109]
}

/// The bytes of `bytes from`.
pub open spec fn bytes_from_word() -> Seq<u8> {
    seq![98u8, 121, 116, 101, 115, 32, 102, 114, 111, 109]
}

/// The bytes of `Reply`.
pub open spec fn reply_word() -> Seq<u8> {
    seq![82u8, 101, 112, 108, 121]
}

/// The bytes of `Fragment`.
pub open spec fn fragment_word() -> Seq<u8> {
    seq![70u8, 114, 97, 103, 109, 101, 110, 116]
}

/// The bytes of `too large`.
pub open spec fn too_large_word() -> Seq<u8> {
    seq![116u8, 111, 111, 32, 108, 97, 114, 103, 101]
}

fn reply_from_bytes() -> (r: Vec<u8>)
    ensures
        r@ == reply_from_word(),
{
    let r = vec![82u8, 101, 112, 108, 121, 32, 102, 114, 111, 109];
    assert(r@ =~= reply_from_word());
    r
}

fn bytes_from_bytes() -> (r: Vec<u8>)
    ensures
        r@ == bytes_from_word(),
{
    let r = vec![98u8, 121, 116, 101, 115, 32, 102, 114, 111, 109];
    assert(r@ =~= bytes_from_word());
    r
}

fn reply_bytes() -> (r: Vec<u8>)
    ensures
        r@ == reply_word(),
{
    let r = vec![82u8, 101, 112, 108, 121];
    assert(r@ =~= reply_word());
    r
}

fn fragment_bytes() -> (r: Vec<u8>)
    ensures
        r@ == fragment_word(),
{
    let r = vec![70u8, 114, 97, 103, 109, 101, 110, 116];
    assert(r@ =~= fragment_word());
    r
}

fn too_large_bytes() -> (r: Vec<u8>)
    ensures
        r@ == too_large_word(),
{
    let r = vec![116u8, 111, 111, 32, 108, 97, 114, 103, 101];
    assert(r@ =~= too_large_word());
    r
}

/// The output shows an echo reply, in Windows' or Linux's wording.
pub open spec fn reply_seen(s: Seq<u8>) -> bool {
    occurs_in(s, reply_from_word()) || occurs_in(s, bytes_from_word())
}

/// A ping succeeded: it exited successfully and printed a reply.
pub fn ping_succeeded(exit_ok: bool, stdout: &str) -> (r: bool)
    ensures
        r == (exit_ok && reply_seen(stdout.spec_bytes())),
{
    let s = stdout.as_bytes();
    let a = reply_from_bytes();
    let b = bytes_from_bytes();
    exit_ok && (contains_bytes(s, a.as_slice()) || contains_bytes(s, b.as_slice()))
}

/// A don't-fragment ping of one size went through: a reply came back and
/// nothing mentions fragmentation or an oversized packet.
pub open spec fn mtu_probe_spec(s: Seq<u8>) -> bool {
    !occurs_in(s, fragment_word()) && !occurs_in(s, too_large_word())
        && (occurs_in(s, reply_word()) || occurs_in(s, bytes_from_word()))
}

/// Whether the output of a don't-fragment ping shows the size passed.
pub fn mtu_probe_passed(stdout: &str) -> (r: bool)
    ensures
        r == mtu_probe_spec(stdout.spec_bytes()),
{
    let s = stdout.as_bytes();
    let f = fragment_bytes();
    let t = too_large_bytes();
    let rp = reply_bytes();
    let bf = bytes_from_bytes();
    !contains_bytes(s, f.as_slice()) && !contains_bytes(s, t.as_slice())
        && (contains_bytes(s, rp.as_slice()) || contains_bytes(s, bf.as_slice()))
}

/// The MTU that a passing payload size shows.
pub fn mtu_for_payload(size: u16) -> (r: u16)
    requires
        size + PING_OVERHEAD <= u16::MAX,
    ensures
        r == size + PING_OVERHEAD,
{
    size + PING_OVERHEAD
}

/// The payload size tried at step `i` of the MTU search, largest first.
pub open spec fn probe_size_spec(i: int) -> u16 {
    if i == 0 {
        1472
    } else if i == 1 {
        1400
    } else if i == 2 {
        1300
    } else if i == 3 {
        1200
    } else {
        500
    }
}

/// The payload size tried at step `i`.
pub fn probe_size(i: usize) -> (r: u16)
    requires
        i < MTU_PROBES,
    ensures
        r == probe_size_spec(i as int),
{
    if i == 0 {
        1472
    } else if i == 1 {
        1400
    } else if i == 2 {
        1300
    } else if i == 3 {
        1200
    } else {
        500
    }
}

/// What the MTU search does after one probe.
#[derive(Clone, Copy, Debug, PartialEq, Eq, Structural)]
pub enum MtuStep {
    /// The probe passed: this is the path MTU.
    Found(u16),
    /// Try the step with this index next.
    Next(usize),
    /// Every size failed.
    GiveUp,
}

/// One step of the MTU search: the don't-fragment ping at step `i` printed
/// `stdout`, or could not run (`None`). A passing probe ends the search with
/// its size plus the headers; otherwise the next smaller size is tried, and
/// after the last one the search gives up.
pub fn mtu_step(i: usize, stdout: Option<&str>) -> (r: MtuStep)
    requires
        i < MTU_PROBES,
    ensures
        (stdout matches Some(s) && mtu_probe_spec(s.spec_bytes()))
            ==> r == MtuStep::Found((probe_size_spec(i as int) + PING_OVERHEAD) as u16),
        !(stdout matches Some(s) && mtu_probe_spec(s.spec_bytes())) ==> r == (if i + 1 < MTU_PROBES {
            MtuStep::Next((i + 1) as usize)
        } else {
            MtuStep::GiveUp
        }),
{
    let passed = match stdout {
        Some(s) => mtu_probe_passed(s),
        None => false,
    };
    if passed {
        MtuStep::Found(mtu_for_payload(probe_size(i)))
    } else if i + 1 < MTU_PROBES {
        MtuStep::Next(i + 1)
    } else {
        MtuStep::GiveUp
    }
}

/// Sum of the values of `s`.
pub open spec fn sum_of(s: Seq<u64>) -> nat
    decreases s.len(),
{
    if s.len() == 0 {
        0
    } else {
        sum_of(s.drop_last()) + s.last() as nat
    }
}

/// The mean of the latencies, rounded down; `None` when there are none.
pub fn average_latency(latencies: &Vec<u64>) -> (r: Option<u64>)
    ensures
        latencies@.len() == 0 ==> r.is_none(),
        latencies@.len() > 0 ==> r == Some((sum_of(latencies@) / latencies@.len()) as u64),
{
    let n = latencies.len();
    if n == 0 {
        return None;
    }
    let mut acc: u128 = 0;
    let mut i: usize = 0;
    while i < n
        invariant
            n == latencies@.len(),
            i <= n,
            acc == sum_of(latencies@.subrange(0, i as int)),
            acc <= u64::MAX * i,
        decreases n - i,
    {
        proof {
            assert(latencies@.subrange(0, i as int + 1).drop_last() =~= latencies@.subrange(0, i as int));
        }
        acc = acc + latencies[i] as u128;
        i = i + 1;
    }
    assert(latencies@.subrange(0, n as int) =~= latencies@);
    let m = n as u128;
    assert(acc / m <= u64::MAX) by (nonlinear_arith)
        requires
            m >= 1,
            acc <= u64::MAX * m,
    ;
    Some((acc / m) as u64)
}

} // verus!
