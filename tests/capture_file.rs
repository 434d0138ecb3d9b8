use netdiag::capture::{capture_format, next_record, Layout};
use netdiag::{analyze_capture, Analyzer, CaptureError};

fn global_header_le(magic: u32) -> Vec<u8> {
    let mut h = Vec::new();
    h.extend_from_slice(&magic.to_le_bytes());
    h.extend_from_slice(&2u16.to_le_bytes());
    h.extend_from_slice(&4u16.to_le_bytes());
    h.extend_from_slice(&0i32.to_le_bytes());
    h.extend_from_slice(&0u32.to_le_bytes());
    h.extend_from_slice(&65535u32.to_le_bytes());
    h.extend_from_slice(&1u32.to_le_bytes());
    h
}

fn record_le(ts_sec: u32, frac: u32, data: &[u8]) -> Vec<u8> {
    let mut r = Vec::new();
    r.extend_from_slice(&ts_sec.to_le_bytes());
    r.extend_from_slice(&frac.to_le_bytes());
    r.extend_from_slice(&(data.len() as u32).to_le_bytes());
    r.extend_from_slice(&(data.len() as u32).to_le_bytes());
    r.extend_from_slice(data);
    r
}

fn record_be(ts_sec: u32, frac: u32, data: &[u8]) -> Vec<u8> {
    let mut r = Vec::new();
    r.extend_from_slice(&ts_sec.to_be_bytes());
    r.extend_from_slice(&frac.to_be_bytes());
    r.extend_from_slice(&(data.len() as u32).to_be_bytes());
    r.extend_from_slice(&(data.len() as u32).to_be_bytes());
    r.extend_from_slice(data);
    r
}

#[test]
fn header_only_capture_is_empty() {
    let r = analyze_capture(&global_header_le(0xa1b2c3d4)).unwrap();
    assert_eq!(r.packet_count, 0);
    assert_eq!(r.duration_us, 0);
    assert!(r.issues.is_empty());
}

#[test]
fn little_endian_capture_frames_and_duration() {
    let mut b = global_header_le(0xa1b2c3d4);
    b.extend(record_le(100, 250_000, &[1, 2, 3]));
    b.extend(record_le(101, 500_000, &[4, 5]));
    b.extend(record_le(102, 0, &[]));
    let r = analyze_capture(&b).unwrap();
    assert_eq!(r.packet_count, 3);
    assert_eq!(r.duration_us, 1_750_000);
    assert_eq!(r.protocols.malformed, 3);
}

#[test]
fn nanosecond_capture_times() {
    let mut b = global_header_le(0xa1b23c4d);
    b.extend(record_le(10, 1_000_000, &[0]));
    b.extend(record_le(10, 3_000_000, &[0]));
    let r = analyze_capture(&b).unwrap();
    assert_eq!(r.duration_us, 2_000);
}

#[test]
fn big_endian_capture() {
    let mut b = Vec::new();
    b.extend_from_slice(&0xa1b2c3d4u32.to_be_bytes());
    b.extend_from_slice(&[0, 2, 0, 4, 0, 0, 0, 0, 0, 0, 0, 0, 0, 0, 0xff, 0xff, 0, 0, 0, 1]);
    b.extend(record_be(1, 0, &[9, 9]));
    b.extend(record_be(3, 0, &[9, 9]));
    let r = analyze_capture(&b).unwrap();
    assert_eq!(r.packet_count, 2);
    assert_eq!(r.duration_us, 2_000_000);
}

#[test]
fn pcapng_is_refused() {
    let b = [0x0a, 0x0d, 0x0d, 0x0a, 0x1c, 0, 0, 0, 0x4d, 0x3c, 0x2b, 0x1a];
    assert_eq!(analyze_capture(&b).err(), Some(CaptureError::UnsupportedFormat));
}

#[test]
fn bad_magic_is_refused() {
    let b = global_header_le(0x12345678);
    assert_eq!(analyze_capture(&b).err(), Some(CaptureError::BadMagic));
}

#[test]
fn short_header_is_refused() {
    assert_eq!(analyze_capture(&[0xd4, 0xc3]).err(), Some(CaptureError::TruncatedHeader));
    let b = global_header_le(0xa1b2c3d4);
    assert_eq!(analyze_capture(&b[..20]).err(), Some(CaptureError::TruncatedHeader));
}

#[test]
fn truncated_record_is_refused() {
    let mut b = global_header_le(0xa1b2c3d4);
    b.extend(record_le(1, 0, &[1, 2, 3, 4]));
    b.pop();
    assert_eq!(analyze_capture(&b).err(), Some(CaptureError::TruncatedRecord));
    let mut b = global_header_le(0xa1b2c3d4);
    b.extend_from_slice(&[1, 0, 0]);
    assert_eq!(analyze_capture(&b).err(), Some(CaptureError::TruncatedRecord));
}

#[test]
fn header_format_and_errors() {
    let f = capture_format(&global_header_le(0xa1b23c4d)).unwrap();
    assert_eq!(f.layout, Layout::Little);
    assert!(f.nanoseconds);
    assert_eq!(capture_format(&global_header_le(0xa1b2cd34)).unwrap().layout, Layout::Modified);
    assert_eq!(capture_format(&[0xd4, 0xc3]).err(), Some(CaptureError::TruncatedHeader));
    assert_eq!(capture_format(&global_header_le(7)).err(), Some(CaptureError::BadMagic));
}

#[test]
fn streaming_matches_whole_capture() {
    let mut b = global_header_le(0xa1b2c3d4);
    b.extend(record_le(100, 250_000, &[1, 2, 3]));
    b.extend(record_le(101, 500_000, &[4, 5]));
    let whole = analyze_capture(&b).unwrap();
    let format = capture_format(&b).unwrap();
    let mut buf: Vec<u8> = Vec::new();
    let mut input = b[24..].iter().copied();
    let mut a = Analyzer::new();
    loop {
        match next_record(&buf, format) {
            Some((ts, s, e)) => {
                a.observe_frame(ts, &buf[s..e]);
                buf.drain(..e);
            }
            None => match input.next() {
                Some(byte) => buf.push(byte),
                None => break,
            },
        }
    }
    assert!(buf.is_empty());
    let streamed = a.finish();
    assert_eq!(streamed.packet_count, whole.packet_count);
    assert_eq!(streamed.duration_us, whole.duration_us);
    assert_eq!(next_record(&record_le(1, 2, &[9])[..12], format), None);
    assert_eq!(next_record(&record_le(1, 2, &[9]), format), Some((1_000_002, 16, 17)));
}
