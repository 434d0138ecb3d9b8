use netdiag::parse_ping_time;

#[test]
fn test_parse_ping_time_windows() {
    let output = "Reply from 8.8.8.8: bytes=32 time=14ms TTL=118";
    assert_eq!(parse_ping_time(output), Some(14));
}

#[test]
fn test_parse_ping_time_linux() {
    let output = "64 bytes from 8.8.8.8: icmp_seq=1 ttl=118 time=14.2 ms";
    let parsed = parse_ping_time(output);
    assert!(parsed.is_some(), "Should parse linux float time");
}

#[test]
fn test_parse_ping_time_lessthan1() {
    let output = "Reply from 8.8.8.8: bytes=32 time<1ms TTL=118";
    assert_eq!(parse_ping_time(output), Some(1));
}

#[test]
fn ping_time_linux_value_is_rounded() {
    assert_eq!(parse_ping_time("64 bytes from 1.1.1.1: icmp_seq=1 ttl=57 time=14.2 ms"), Some(14));
    assert_eq!(parse_ping_time("64 bytes from 1.1.1.1: icmp_seq=1 ttl=57 time=14.5 ms"), Some(15));
    assert_eq!(parse_ping_time("64 bytes from 1.1.1.1: icmp_seq=1 ttl=57 time=0.049 ms"), Some(0));
}

#[test]
fn ping_time_absent() {
    assert_eq!(parse_ping_time("Request timed out."), None);
    assert_eq!(parse_ping_time(""), None);
}

#[test]
fn ping_time_without_terminator() {
    assert_eq!(parse_ping_time("time=12"), None);
}

#[test]
fn ping_time_space_terminated() {
    assert_eq!(parse_ping_time("x time=7 TTL=64"), Some(7));
}

#[test]
fn ping_time_not_a_number() {
    assert_eq!(parse_ping_time("time=abc ms"), None);
    assert_eq!(parse_ping_time("time= ms"), None);
}

#[test]
fn ping_time_saturates() {
    assert_eq!(parse_ping_time("time=99999999999999999999999ms"), Some(u64::MAX));
}

#[test]
fn ping_time_trims_unicode_whitespace() {
    assert_eq!(parse_ping_time("time=\u{a0}14ms"), Some(14));
    assert_eq!(parse_ping_time("time=\u{3000}7\u{2009}ms"), Some(7));
}

#[test]
fn ping_time_float_forms() {
    assert_eq!(parse_ping_time("time=1e3ms"), Some(1000));
    assert_eq!(parse_ping_time("time=1.5E0ms"), Some(2));
    assert_eq!(parse_ping_time("time=2.5e-1ms"), Some(0));
    assert_eq!(parse_ping_time("time=.5ms"), Some(1));
    assert_eq!(parse_ping_time("time=5.ms"), Some(5));
    assert_eq!(parse_ping_time("time=1e400ms"), Some(u64::MAX));
    assert_eq!(parse_ping_time("time=1e-400ms"), Some(0));
    assert_eq!(parse_ping_time("time=1e ms"), None);
}

#[test]
fn ping_time_special_values() {
    assert_eq!(parse_ping_time("time=inf ms"), Some(u64::MAX));
    assert_eq!(parse_ping_time("time=Infinity ms"), Some(u64::MAX));
    assert_eq!(parse_ping_time("time=-inf ms"), Some(0));
    assert_eq!(parse_ping_time("time=NaN ms"), Some(0));
    assert_eq!(parse_ping_time("time=-5 ms"), Some(0));
    assert_eq!(parse_ping_time("time=+3 ms"), Some(3));
}
