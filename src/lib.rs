//! Offline packet-capture analysis: a capture reader, a layered header
//! decoder, per-flow TCP state, traffic statistics and a fixed set of
//! heuristic rules, each stated and proved with Verus.
use vstd::prelude::*;

pub mod bytes;
pub mod decode;
pub mod flow;
pub mod stats;
pub mod conversation;
pub mod rules;
pub mod report;
pub mod analyzer;
pub mod capture;
pub mod lan;
pub mod ping;
pub mod probe;
pub mod results;
pub mod text;
pub mod wifi;
pub mod trace;

pub use analyzer::{AnalysisReport, Analyzer, TcpStats};
pub use capture::{analyze_capture, CaptureError};
pub use conversation::Conversation;
pub use ping::parse_ping_time;
pub use results::{
    DnsRecord, GeoIp, LanDevice, MtuResult, NatResult, PingResult, PortScanProgress,
    PortScanResult, TcpResult, TracerouteHop, WifiInfo,
};
pub use rules::{Issue, IssueKind, Severity};

verus! {

} // verus!
