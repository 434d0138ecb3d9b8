use netdiag::trace::{hop_from_captures, parse_hop_line};

#[test]
fn windows_hop_line() {
    let h = parse_hop_line("  2     9 ms     8 ms     9 ms  10.0.0.1").unwrap();
    assert_eq!(h.hop, 2);
    assert_eq!(h.ip, "10.0.0.1");
    assert_eq!(h.time_ms, Some(9));
    assert_eq!(h.status, "Success");
    assert!(h.host_name.is_none());
}

#[test]
fn sub_millisecond_hop_has_no_time() {
    let h = parse_hop_line("  1    <1 ms    <1 ms    <1 ms  192.168.1.1").unwrap();
    assert_eq!(h.hop, 1);
    assert_eq!(h.ip, "192.168.1.1");
    assert_eq!(h.time_ms, None);
}

#[test]
fn timed_out_hop() {
    let h = parse_hop_line("  3     *        *        *     Request timed out.").unwrap();
    assert_eq!(h.hop, 3);
    assert_eq!(h.ip, "Request Timed Out");
    assert_eq!(h.status, "Timeout");
    assert_eq!(h.time_ms, None);
}

#[test]
fn non_hop_lines() {
    assert!(parse_hop_line("Tracing route to example.com [93.184.216.34]").is_none());
    assert!(parse_hop_line("").is_none());
}

#[test]
fn hop_fields_from_captures() {
    let h = hop_from_captures("line", "300", Some("12ms"), "  host.example  ");
    assert_eq!(h.hop, 0);
    assert_eq!(h.time_ms, Some(12));
    assert_eq!(h.ip, "host.example");
    assert_eq!(h.status, "Success");
    let h = hop_from_captures("line", "7", None, "Request timed out.");
    assert_eq!(h.hop, 7);
    assert_eq!(h.ip, "Request Timed Out");
    assert_eq!(h.status, "Timeout");
}
