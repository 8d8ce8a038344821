//! Tests for the sensor header and point record decoders.

use cepton_pcap::cepton::{ParseMode, RawPoint, StdvHeader};

fn normal_record(x: i16, y: u16, z: i16, refl: u8, ts: u8, ch: u8, flags: u8) -> Vec<u8> {
    let mut r = Vec::new();
    r.extend_from_slice(&x.to_le_bytes());
    r.extend_from_slice(&y.to_le_bytes());
    r.extend_from_slice(&z.to_le_bytes());
    r.push(refl);
    r.push(ts);
    r.push(ch);
    r.push(flags);
    r
}

#[test]
fn test_stdv_header_parse() {
    let mut data = vec![0u8; 24];
    data[0..4].copy_from_slice(b"STDV");
    data[18] = 144; // point_count low byte

    let header = StdvHeader::parse(&data).unwrap();
    assert_eq!(&header.signature, b"STDV");
    assert_eq!(header.point_count, 144);
}

#[test]
fn test_raw_point_parse() {
    // Test data: x=2560 (12.8m), y=144 (0.72m), z=-17788 (-88.94m)
    let data = [0x00, 0x0a, 0x90, 0x00, 0x84, 0xba, 0x74, 0x02, 0x05, 0x00];
    let point = RawPoint::parse(&data).unwrap();

    assert_eq!(point.x, 2560);
    assert_eq!(point.y, 144);
    assert_eq!(point.z, -17788);
    assert_eq!(point.laser_id, 5);

    // 0.5 cm resolution: physical meters = raw * 0.005.
    let mx = point.x as f64 * 0.005;
    let my = point.y as f64 * 0.005;
    assert!((mx - 12.8).abs() < 0.01);
    assert!((my - 0.72).abs() < 0.01);
}

#[test]
fn test_header_parse_all_fields() {
    let mut data = vec![0u8; 24];
    data[0..4].copy_from_slice(b"STDV");
    data[4] = 3; // header version
    data[5] = 24; // header size
    data[6..8].copy_from_slice(&0xbeefu16.to_le_bytes());
    data[8..16].copy_from_slice(&0x0123_4567_89ab_cdefu64.to_le_bytes());
    data[16] = 7; // point version
    data[17] = 10; // point size
    data[18..20].copy_from_slice(&144u16.to_le_bytes());
    data[20..24].copy_from_slice(&0xcafe_f00du32.to_le_bytes());

    let header = StdvHeader::parse(&data).unwrap();
    assert_eq!(&header.signature, b"STDV");
    assert_eq!(header.header_version, 3);
    assert_eq!(header.header_size, 24);
    assert_eq!(header.flags, 0xbeef);
    assert_eq!(header.timestamp, 0x0123_4567_89ab_cdef);
    assert_eq!(header.point_version, 7);
    assert_eq!(header.point_size, 10);
    assert_eq!(header.point_count, 144);
    assert_eq!(header.sequence_id, 0xcafe_f00d);
}

#[test]
fn test_header_parse_rejects_bad_signature() {
    let mut data = vec![0u8; 24];
    data[0..4].copy_from_slice(b"STDX");
    assert!(StdvHeader::parse(&data).is_none());
}

#[test]
fn test_header_parse_rejects_short_input() {
    let mut data = vec![0u8; 23];
    data[0..4].copy_from_slice(b"STDV");
    assert!(StdvHeader::parse(&data).is_none());
}

#[test]
fn test_point_parse_rejects_short_input() {
    let data = [0u8; 9];
    assert!(RawPoint::parse(&data).is_none());
    let data17 = [0u8; 16];
    assert!(RawPoint::parse_with_mode(&data17, ParseMode::Debug).is_none());
}

#[test]
fn test_debug_record_extra_fields() {
    let mut data = normal_record(-2, 7, 100, 33, 44, 12, 1);
    data.extend_from_slice(&0x01020304u32.to_le_bytes()); // distance
    data.extend_from_slice(&0x0a0bu16.to_le_bytes()); // intensity
    data.push(0x7f); // power level

    let p = RawPoint::parse_with_mode(&data, ParseMode::Debug).unwrap();
    assert_eq!(p.x, -2);
    assert_eq!(p.y, 7);
    assert_eq!(p.z, 100);
    assert_eq!(p.reflectivity, 33);
    assert_eq!(p.timestamp, 44);
    assert_eq!(p.laser_id, 12);
    assert_eq!(p.flags, 1);
    assert_eq!(p.distance, Some(0x01020304));
    assert_eq!(p.intensity, Some(0x0a0b));
    assert_eq!(p.power_level, Some(0x7f));
}

#[test]
fn test_mode_sensitivity_same_bytes() {
    // 17 bytes: a Normal-layout record followed by 7 trailing bytes. The
    // active mode alone decides how much of the buffer is one record: the
    // first 10 bytes decode identically, and only Debug mode interprets the
    // trailing bytes as record fields.
    let mut data = normal_record(10, 20, 30, 1, 2, 5, 0);
    data.extend_from_slice(&[0xaa, 0xbb, 0xcc, 0xdd, 0xee, 0xff, 0x11]);

    let n = RawPoint::parse_with_mode(&data, ParseMode::Normal).unwrap();
    let d = RawPoint::parse_with_mode(&data, ParseMode::Debug).unwrap();
    assert_eq!(n.laser_id, 5);
    assert_eq!(d.laser_id, 5);
    assert_eq!(n.flags, d.flags);
    assert_eq!(n.distance, None);
    assert_eq!(d.distance, Some(u32::from_le_bytes([0xaa, 0xbb, 0xcc, 0xdd])));
    assert_eq!(d.intensity, Some(u16::from_le_bytes([0xee, 0xff])));
    assert_eq!(d.power_level, Some(0x11));
}

#[test]
fn test_channel_accessor() {
    let data = normal_record(0, 0, 0, 0, 0, 63, 0);
    let p = RawPoint::parse(&data).unwrap();
    assert_eq!(p.channel(), 63);
}
