//! Reading a legacy (libpcap) capture held in memory: the global header,
//! then one record header and frame after another until the bytes end. The
//! headers are read by `pcap_parser`; walking the records and analysing each
//! frame is done here.
use vstd::prelude::*;
use crate::analyzer::{is_report_of, run, AnalysisReport, Analyzer, FrameView};
use crate::bytes::{be_at, le_at};

verus! {

/// Why a capture could not be analysed.
#[derive(Clone, Copy, Debug, PartialEq, Eq, Structural)]
pub enum CaptureError {
    /// The bytes are a pcapng capture, which is not read.
    UnsupportedFormat,
    /// The global header's magic number is not one of libpcap's.
    BadMagic,
    /// The capture ends inside its 24-byte global header.
    TruncatedHeader,
    /// The capture ends inside a record header or a record's frame.
    TruncatedRecord,
}

/// How a global-header read failed.
#[derive(Clone, Copy, Debug, PartialEq, Eq, Structural)]
pub enum HeaderFault {
    Incomplete,
    NotRecognized,
}

/// The fields of one record header.
#[derive(Clone, Copy, Debug, PartialEq, Eq, Structural)]
pub struct RecordHeader {
    pub ts_sec: u32,
    /// Microseconds, or nanoseconds in a nanosecond-resolution capture.
    pub ts_frac: u32,
    pub caplen: u32,
}

/// Byte order and layout of the records, as the magic number gives them.
#[derive(Clone, Copy, Debug, PartialEq, Eq, Structural)]
pub enum Layout {
    Little,
    Big,
    /// The "modified" libpcap format: little-endian, 24-byte record headers.
    Modified,
}

/// How the records of a capture are read.
#[derive(Clone, Copy, Debug, PartialEq, Eq, Structural)]
pub struct Format {
    pub layout: Layout,
    pub nanoseconds: bool,
}

pub const MAGIC_MICRO: u32 = 0xa1b2_c3d4;
pub const MAGIC_NANO: u32 = 0xa1b2_3c4d;
pub const MAGIC_MODIFIED: u32 = 0xa1b2_cd34;
pub const MAGIC_MICRO_SWAPPED: u32 = 0xd4c3_b2a1;
pub const MAGIC_NANO_SWAPPED: u32 = 0x4d3c_b2a1;
/// Length of the global header.
pub const GLOBAL_HEADER_LEN: usize = 24;

/// The five libpcap magic numbers, read little-endian.
pub open spec fn known_magic(m: nat) -> bool {
    m == MAGIC_MICRO || m == MAGIC_NANO || m == MAGIC_MODIFIED || m == MAGIC_MICRO_SWAPPED || m == MAGIC_NANO_SWAPPED
}

/// The record format that magic number `m` announces.
pub open spec fn format_of(m: u32) -> Format {
    if m == MAGIC_MICRO_SWAPPED {
        Format { layout: Layout::Big, nanoseconds: false }
    } else if m == MAGIC_NANO_SWAPPED {
        Format { layout: Layout::Big, nanoseconds: true }
    } else if m == MAGIC_MODIFIED {
        Format { layout: Layout::Modified, nanoseconds: false }
    } else {
        Format { layout: Layout::Little, nanoseconds: m == MAGIC_NANO }
    }
}

pub open spec fn header_fault(f: HeaderFault) -> Result<u32, HeaderFault> {
    Err(f)
}

pub open spec fn header_magic(m: u32) -> Result<u32, HeaderFault> {
    Ok(m)
}

/// Relies on `pcap_parser::parse_pcap_header`: it reads the magic number
/// little-endian, refuses any but libpcap's five, and needs 24 bytes in all.
#[verifier::external_body]
fn read_global_header(b: &[u8]) -> (r: Result<u32, HeaderFault>)
    ensures
        b@.len() < 4 ==> r == header_fault(HeaderFault::Incomplete),
        b@.len() >= 4 && !known_magic(le_at(b@, 0, 4)) ==> r == header_fault(HeaderFault::NotRecognized),
        b@.len() >= 4 && known_magic(le_at(b@, 0, 4)) && b@.len() < 24 ==> r == header_fault(HeaderFault::Incomplete),
        b@.len() >= 24 && known_magic(le_at(b@, 0, 4)) ==> r == header_magic(le_at(b@, 0, 4) as u32),
{
    match pcap_parser::parse_pcap_header(b) {
        Ok((_, h)) => Ok(h.magic_number),
        Err(pcap_parser::nom::Err::Incomplete(_)) => Err(HeaderFault::Incomplete),
        Err(_) => Err(HeaderFault::NotRecognized),
    }
}

/// The record header at the start of `b` in a little-endian capture, when
/// the header and its frame are all there.
pub open spec fn record_le(b: Seq<u8>, header_len: int) -> Option<RecordHeader> {
    if b.len() >= header_len && b.len() - header_len >= le_at(b, 8, 4) {
        Some(RecordHeader { ts_sec: le_at(b, 0, 4) as u32, ts_frac: le_at(b, 4, 4) as u32, caplen: le_at(b, 8, 4) as u32 })
    } else {
        None
    }
}

/// The same for a big-endian capture.
pub open spec fn record_be(b: Seq<u8>) -> Option<RecordHeader> {
    if b.len() >= 16 && b.len() - 16 >= be_at(b, 8, 4) {
        Some(RecordHeader { ts_sec: be_at(b, 0, 4) as u32, ts_frac: be_at(b, 4, 4) as u32, caplen: be_at(b, 8, 4) as u32 })
    } else {
        None
    }
}

/// Relies on `pcap_parser::parse_pcap_frame`: a 16-byte little-endian record
/// header (seconds, fraction, captured length, original length), then the
/// captured bytes; too few bytes for either is an incomplete read.
#[verifier::external_body]
fn read_record_le(b: &[u8]) -> (r: Option<RecordHeader>)
    ensures
        r == record_le(b@, 16),
{
    match pcap_parser::parse_pcap_frame(b) {
        Ok((_, f)) => Some(RecordHeader { ts_sec: f.ts_sec, ts_frac: f.ts_usec, caplen: f.caplen }),
        Err(_) => None,
    }
}

/// Relies on `pcap_parser::parse_pcap_frame_be`: as the little-endian
/// reader, with the four header fields big-endian.
#[verifier::external_body]
fn read_record_be(b: &[u8]) -> (r: Option<RecordHeader>)
    ensures
        r == record_be(b@),
{
    match pcap_parser::parse_pcap_frame_be(b) {
        Ok((_, f)) => Some(RecordHeader { ts_sec: f.ts_sec, ts_frac: f.ts_usec, caplen: f.caplen }),
        Err(_) => None,
    }
}

/// Relies on `pcap_parser::parse_pcap_frame_modified`: as the little-endian
/// reader, with a 24-byte record header.
#[verifier::external_body]
fn read_record_modified(b: &[u8]) -> (r: Option<RecordHeader>)
    ensures
        r == record_le(b@, 24),
{
    match pcap_parser::parse_pcap_frame_modified(b) {
        Ok((_, f)) => Some(RecordHeader { ts_sec: f.ts_sec, ts_frac: f.ts_usec, caplen: f.caplen }),
        Err(_) => None,
    }
}

pub open spec fn header_len(f: Format) -> int {
    if f.layout == Layout::Modified { 24 } else { 16 }
}

/// The record header at the start of `b` in format `f`.
pub open spec fn record_spec(b: Seq<u8>, f: Format) -> Option<RecordHeader> {
    match f.layout {
        Layout::Little => record_le(b, 16),
        Layout::Big => record_be(b),
        Layout::Modified => record_le(b, 24),
    }
}

/// A record's capture time in microseconds.
pub open spec fn timestamp_us(h: RecordHeader, f: Format) -> u64 {
    (h.ts_sec * 1_000_000 + if f.nanoseconds { (h.ts_frac / 1000) as int } else { h.ts_frac as int }) as u64
}

/// The frames of `b` from offset `off` on, after the frames `acc`.
pub open spec fn frames_from(b: Seq<u8>, f: Format, off: int, acc: Seq<FrameView>) -> Result<Seq<FrameView>, CaptureError>
    decreases b.len() - off,
{
    if off < 0 || off >= b.len() {
        Ok(acc)
    } else {
        match record_spec(b.subrange(off, b.len() as int), f) {
            None => Err(CaptureError::TruncatedRecord),
            Some(h) => {
                let start = off + header_len(f);
                let end = start + h.caplen;
                let fr = FrameView { ts_us: timestamp_us(h, f), data: b.subrange(start, end) };
                frames_from(b, f, end, acc.push(fr))
            },
        }
    }
}

/// The bytes begin with a pcapng section header block.
pub open spec fn is_pcapng(b: Seq<u8>) -> bool {
    b.len() >= 4 && b[0] == 0x0a && b[1] == 0x0d && b[2] == 0x0d && b[3] == 0x0a
}

/// The frames of capture `b`, or why it cannot be read.
pub open spec fn capture_spec(b: Seq<u8>) -> Result<Seq<FrameView>, CaptureError> {
    if is_pcapng(b) {
        Err(CaptureError::UnsupportedFormat)
    } else if b.len() < 4 {
        Err(CaptureError::TruncatedHeader)
    } else if !known_magic(le_at(b, 0, 4)) {
        Err(CaptureError::BadMagic)
    } else if b.len() < 24 {
        Err(CaptureError::TruncatedHeader)
    } else {
        frames_from(b, format_of(le_at(b, 0, 4) as u32), 24, Seq::empty())
    }
}

/// Capture `b` cannot be read, for reason `e`.
pub open spec fn capture_fails(b: Seq<u8>, e: CaptureError) -> bool {
    capture_spec(b) == Err::<Seq<FrameView>, CaptureError>(e)
}

fn format_exec(m: u32) -> (r: Format)
    ensures
        r == format_of(m),
{
    if m == MAGIC_MICRO_SWAPPED {
        Format { layout: Layout::Big, nanoseconds: false }
    } else if m == MAGIC_NANO_SWAPPED {
        Format { layout: Layout::Big, nanoseconds: true }
    } else if m == MAGIC_MODIFIED {
        Format { layout: Layout::Modified, nanoseconds: false }
    } else {
        Format { layout: Layout::Little, nanoseconds: m == MAGIC_NANO }
    }
}

fn read_record(b: &[u8], f: Format) -> (r: Option<RecordHeader>)
    ensures
        r == record_spec(b@, f),
{
    match f.layout {
        Layout::Little => read_record_le(b),
        Layout::Big => read_record_be(b),
        Layout::Modified => read_record_modified(b),
    }
}

/// The record format that a capture beginning with `b` announces, or why it
/// cannot be read; `b` must hold the whole 24-byte global header when the
/// capture has one.
pub open spec fn header_spec(b: Seq<u8>) -> Result<Format, CaptureError> {
    if is_pcapng(b) {
        Err(CaptureError::UnsupportedFormat)
    } else if b.len() < 4 {
        Err(CaptureError::TruncatedHeader)
    } else if !known_magic(le_at(b, 0, 4)) {
        Err(CaptureError::BadMagic)
    } else if b.len() < 24 {
        Err(CaptureError::TruncatedHeader)
    } else {
        Ok(format_of(le_at(b, 0, 4) as u32))
    }
}

/// Reads the global header at the start of `bytes`: the format of the
/// records that follow it, which start at byte 24.
pub fn capture_format(bytes: &[u8]) -> (r: Result<Format, CaptureError>)
    ensures
        r == header_spec(bytes@),
{
    let len = bytes.len();
    if len >= 4 && bytes[0] == 0x0a && bytes[1] == 0x0d && bytes[2] == 0x0d && bytes[3] == 0x0a {
        return Err(CaptureError::UnsupportedFormat);
    }
    match read_global_header(bytes) {
        Ok(m) => Ok(format_exec(m)),
        Err(HeaderFault::Incomplete) => Err(CaptureError::TruncatedHeader),
        Err(HeaderFault::NotRecognized) => Err(CaptureError::BadMagic),
    }
}

/// The next record at the start of `buf`, in format `f`: its capture time in
/// microseconds and where its frame starts and ends in `buf`. `None` while
/// `buf` does not yet hold the whole record; a reader then reads more, and
/// at the end of its input that means the capture is cut short.
pub fn next_record(buf: &[u8], f: Format) -> (r: Option<(u64, usize, usize)>)
    ensures
        match record_spec(buf@, f) {
            None => r.is_none(),
            Some(h) => r == Some((timestamp_us(h, f), header_len(f) as usize, (header_len(f) + h.caplen) as usize)),
        },
{
    let n = buf.len();
    match read_record(buf, f) {
        None => None,
        Some(h) => {
            assert(header_len(f) + h.caplen <= n);
            let hl: usize = if f.layout == Layout::Modified { 24 } else { 16 };
            let frac: u64 = if f.nanoseconds { h.ts_frac as u64 / 1000 } else { h.ts_frac as u64 };
            let ts = h.ts_sec as u64 * 1_000_000 + frac;
            Some((ts, hl, hl + h.caplen as usize))
        },
    }
}

/// Reads a legacy capture held in `bytes` and analyses every frame in it, in
/// order. A pcapng capture, an unknown magic number, or a capture that ends
/// inside a header or a frame is an error; an empty record list is not.
pub fn analyze_capture(bytes: &[u8]) -> (r: Result<AnalysisReport, CaptureError>)
    ensures
        match r {
            Ok(rep) => capture_spec(bytes@) matches Ok(fs) && is_report_of(rep, run(fs)),
            Err(e) => capture_fails(bytes@, e),
        },
{
    let len = bytes.len();
    if len >= 4 && bytes[0] == 0x0a && bytes[1] == 0x0d && bytes[2] == 0x0d && bytes[3] == 0x0a {
        return Err(CaptureError::UnsupportedFormat);
    }
    let magic = match read_global_header(bytes) {
        Ok(m) => m,
        Err(HeaderFault::Incomplete) => {
            return Err(CaptureError::TruncatedHeader);
        },
        Err(HeaderFault::NotRecognized) => {
            return Err(CaptureError::BadMagic);
        },
    };
    let f = format_exec(magic);
    let hl: usize = if f.layout == Layout::Modified { 24 } else { 16 };
    let mut a = Analyzer::new();
    let mut off: usize = GLOBAL_HEADER_LEN;
    let ghost mut acc: Seq<FrameView> = Seq::empty();
    while off < len
        invariant
            len == bytes@.len(),
            24 <= off <= len,
            hl == header_len(f),
            a.wf(),
            a@ == run(acc),
            a.packets <= off,
            a.bytes <= off,
            capture_spec(bytes@) == frames_from(bytes@, f, off as int, acc),
        decreases len - off,
    {
        let rest = vstd::slice::slice_subrange(bytes, off, len);
        let h = match read_record(rest, f) {
            Some(h) => h,
            None => {
                return Err(CaptureError::TruncatedRecord);
            },
        };
        let start = off + hl;
        let end = start + h.caplen as usize;
        let frac: u64 = if f.nanoseconds { h.ts_frac as u64 / 1000 } else { h.ts_frac as u64 };
        let ts = h.ts_sec as u64 * 1_000_000 + frac;
        let data = vstd::slice::slice_subrange(bytes, start, end);
        proof {
            assert(data@ =~= bytes@.subrange(start as int, end as int));
            let fr = FrameView { ts_us: ts, data: data@ };
            assert(acc.push(fr).drop_last() =~= acc);
            acc = acc.push(fr);
        }
        a.observe_frame(ts, data);
        off = end;
    }
    Ok(a.finish())
}

} // verus!
