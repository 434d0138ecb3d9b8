//! Result records of the network probing utilities. They carry plain
//! values; the front end that runs the probes fills them in.
use vstd::prelude::*;

verus! {

#[derive(Clone, Debug)]
pub struct PingResult {
    pub host: String,
    pub status: String,
    pub time_ms: Option<u64>,
    pub output: String,
}

#[derive(Clone, Debug)]
pub struct TcpResult {
    pub host: String,
    pub port: u16,
    pub status: String,
    pub time_ms: Option<u64>,
}

#[derive(Clone, Debug)]
pub struct MtuResult {
    pub host: String,
    pub mtu: u16,
    pub status: String,
    pub details: String,
}

#[derive(Clone, Debug)]
pub struct NatResult {
    pub nat_type: String,
    pub public_ip: String,
    pub details: String,
}

#[derive(Clone, Debug)]
pub struct DnsRecord {
    pub record_type: String,
    pub value: String,
    pub ttl: u32,
}

#[derive(Clone, Debug)]
pub struct TracerouteHop {
    pub hop: u8,
    pub ip: String,
    pub host_name: Option<String>,
    pub time_ms: Option<u64>,
    pub status: String,
}

#[derive(Clone, Debug)]
pub struct PortScanResult {
    pub open_ports: Vec<u16>,
    pub host: String,
    pub scanned_count: u16,
    pub time_ms: u64,
}

#[derive(Clone, Debug)]
pub struct GeoIp {
    pub status: String,
    pub country: Option<String>,
    pub region_name: Option<String>,
    pub city: Option<String>,
    pub isp: Option<String>,
    pub query: String,
}

#[derive(Clone, Debug)]
pub struct LanDevice {
    pub ip: String,
    pub hostname: String,
    pub mac: String,
    pub status: String,
}

#[derive(Clone, Debug)]
pub struct PortScanProgress {
    pub port: u16,
    pub status: String,
}

#[derive(Clone, Debug)]
pub struct WifiInfo {
    pub ssid: String,
    pub bssid: String,
    pub rssi: i32,
    pub signal_quality: u8,
    pub channel: u32,
}

} // verus!
