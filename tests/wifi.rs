use netdiag::wifi::wifi_from_netsh;

const NETSH: &str = "\r\nThere is 1 interface on the system:\r\n\r\n    Name                   : Wi-Fi\r\n    Description            : Intel(R) Wi-Fi 6 AX201 160MHz\r\n    State                  : connected\r\n    SSID                   : HomeNet\r\n    BSSID                  : aa:bb:cc:dd:ee:ff\r\n    Network type           : Infrastructure\r\n    Radio type             : 802.11ax\r\n    Channel                : 36\r\n    Receive rate (Mbps)    : 1201\r\n    Signal                 : 84%\r\n    Profile                : HomeNet\r\n";

#[test]
fn netsh_fields() {
    let w = wifi_from_netsh(NETSH);
    assert_eq!(w.ssid, "HomeNet");
    assert_eq!(w.bssid, "aa:bb:cc:dd:ee:ff");
    assert_eq!(w.signal_quality, 84);
    assert_eq!(w.channel, 36);
    assert_eq!(w.rssi, -58);
}

#[test]
fn netsh_without_interface() {
    let w = wifi_from_netsh("There is no wireless interface on the system.\r\n");
    assert_eq!(w.ssid, "Unknown");
    assert_eq!(w.bssid, "Unknown");
    assert_eq!(w.signal_quality, 0);
    assert_eq!(w.channel, 0);
    assert_eq!(w.rssi, -100);
}

#[test]
fn netsh_unreadable_signal() {
    let w = wifi_from_netsh("Signal : 84 %\nChannel : x\nSSID\n");
    assert_eq!(w.signal_quality, 0);
    assert_eq!(w.channel, 0);
    assert_eq!(w.ssid, "Unknown");
}

#[test]
fn nmcli_in_use_row() {
    let t = "IN-USE  SSID          BSSID              SIGNAL  CHAN\n        Neighbour     11:22:33:44:55:66  40      6\n*       My Home Net   AA:BB:CC:DD:EE:FF  70      11\n";
    let w = netdiag::wifi::wifi_from_nmcli(t).unwrap();
    assert_eq!(w.ssid, "Linux_Detected");
    assert_eq!(w.bssid, "00:00:00:00:00:00");
    assert_eq!(w.signal_quality, 80);
    assert_eq!(w.channel, 1);
    assert_eq!(w.rssi, -50);
    assert!(netdiag::wifi::wifi_from_nmcli("*").is_some());
    assert!(netdiag::wifi::wifi_from_nmcli("  \u{a0}*x").is_some());
}

#[test]
fn nmcli_without_in_use_row() {
    let t = "IN-USE  SSID  BSSID  SIGNAL  CHAN\n        Net   11:22:33:44:55:66  40  6\n";
    assert!(netdiag::wifi::wifi_from_nmcli(t).is_none());
    assert!(netdiag::wifi::wifi_from_nmcli("").is_none());
}
