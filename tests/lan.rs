use netdiag::lan::{mac_from_arp_table, subnet_prefix_len};

fn lookup(table: &str, ip: &str) -> Option<String> {
    mac_from_arp_table(table, ip)
}

#[test]
fn arp_table_linux_style() {
    let t = "? (192.168.1.1) at aa:bb:cc:dd:ee:ff [ether] on eth0\n";
    assert_eq!(lookup(t, "192.168.1.1"), None);
}

#[test]
fn arp_table_windows_style() {
    let t = "\r\nInterface: 192.168.1.10 --- 0x4\r\n  Internet Address      Physical Address      Type\r\n  192.168.1.1           aa-bb-cc-dd-ee-ff     dynamic\r\n  192.168.1.20          11-22-33-44-55-66     dynamic\r\n";
    assert_eq!(lookup(t, "192.168.1.20"), Some("11-22-33-44-55-66".to_string()));
    assert_eq!(lookup(t, "192.168.1.1"), Some("aa-bb-cc-dd-ee-ff".to_string()));
    assert_eq!(lookup(t, "192.168.1.2"), None);
    assert_eq!(lookup(t, "192.168.1.10"), None);
}

#[test]
fn arp_entry_needs_second_field() {
    assert_eq!(lookup("10.0.0.1\n10.0.0.1 xx", "10.0.0.1"), Some("xx".to_string()));
    assert_eq!(lookup("", "10.0.0.1"), None);
}

#[test]
fn subnet_prefix_of_dotted_quad() {
    assert_eq!(subnet_prefix_len("192.168.1.10"), Some(10));
    assert_eq!(subnet_prefix_len("10.0.0.1"), Some(7));
    assert_eq!(subnet_prefix_len("fe80::1"), None);
    assert_eq!(subnet_prefix_len("1.2.3"), None);
    assert_eq!(subnet_prefix_len("1.2.3.4.5"), None);
}

#[test]
fn arp_fields_split_at_unicode_whitespace() {
    assert_eq!(lookup("1\u{a0}2 aa", "1"), Some("2".to_string()));
    assert_eq!(lookup("1\u{a0}2 aa", "1\u{a0}2"), None);
    assert_eq!(lookup("x y\n", ""), None);
}
