use netdiag::probe::{average_latency, mtu_for_payload, mtu_probe_passed, mtu_step, ping_succeeded, probe_size, MtuStep};

#[test]
fn ping_success_needs_exit_and_reply() {
    assert!(ping_succeeded(true, "Reply from 8.8.8.8: bytes=32 time=14ms TTL=118"));
    assert!(ping_succeeded(true, "64 bytes from 8.8.8.8: icmp_seq=1 ttl=118 time=14.2 ms"));
    assert!(!ping_succeeded(false, "64 bytes from 8.8.8.8: icmp_seq=1 ttl=118 time=14.2 ms"));
    assert!(!ping_succeeded(true, "Request timed out."));
}

#[test]
fn mtu_probe_verdicts() {
    assert!(mtu_probe_passed("Reply from 1.1.1.1: bytes=1472 time=9ms TTL=57"));
    assert!(mtu_probe_passed("1480 bytes from 1.1.1.1: icmp_seq=1 ttl=57 time=9 ms"));
    assert!(!mtu_probe_passed("Packet needs to be fragmented but DF set."));
    assert!(!mtu_probe_passed("ping: local error: message too large, mtu=1400"));
    assert!(!mtu_probe_passed("Reply from 1.1.1.1: Fragmentation needed"));
    assert!(!mtu_probe_passed(""));
}

#[test]
fn mtu_adds_headers() {
    assert_eq!(mtu_for_payload(1472), 1500);
    assert_eq!(probe_size(0), 1472);
    assert_eq!(probe_size(4), 500);
}

#[test]
fn mtu_search_steps() {
    assert_eq!(mtu_step(0, Some("Reply from 1.1.1.1: bytes=1472 time=9ms TTL=57")), MtuStep::Found(1500));
    assert_eq!(mtu_step(2, Some("1328 bytes from 1.1.1.1: icmp_seq=1")), MtuStep::Found(1328));
    assert_eq!(mtu_step(0, Some("Packet needs to be fragmented but DF set.")), MtuStep::Next(1));
    assert_eq!(mtu_step(1, None), MtuStep::Next(2));
    assert_eq!(mtu_step(4, Some("Request timed out.")), MtuStep::GiveUp);
}

#[test]
fn average_latency_rounds_down() {
    assert_eq!(average_latency(&vec![]), None);
    assert_eq!(average_latency(&vec![10, 11]), Some(10));
    assert_eq!(average_latency(&vec![u64::MAX, u64::MAX]), Some(u64::MAX));
}
