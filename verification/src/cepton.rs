//! Cepton sensor packet and point record decoding.
//!
//! A sensor packet is a UDP payload that begins with a fixed 24-byte header
//! carrying an ASCII signature, a timestamp, and the number of point records
//! that follow. Each point record encodes one LiDAR sample in one of two
//! fixed little-endian byte layouts, selected by [`ParseMode`].

use vstd::prelude::*;

verus! {

/// Little-endian 16-bit value of two bytes.
pub open spec fn u16_le(b0: u8, b1: u8) -> u16 {
    (b0 + 256 * b1) as u16
}

/// Little-endian signed 16-bit value of two bytes (two's complement).
pub open spec fn i16_le(b0: u8, b1: u8) -> i16 {
    if b0 + 256 * b1 < 32768 {
        (b0 + 256 * b1) as i16
    } else {
        (b0 + 256 * b1 - 65536) as i16
    }
}

/// Little-endian 32-bit value of four bytes.
pub open spec fn u32_le(b0: u8, b1: u8, b2: u8, b3: u8) -> u32 {
    (b0 + 0x100 * b1 + 0x10000 * b2 + 0x1000000 * b3) as u32
}

/// Little-endian 64-bit value of eight bytes.
pub open spec fn u64_le(b0: u8, b1: u8, b2: u8, b3: u8, b4: u8, b5: u8, b6: u8, b7: u8) -> u64 {
    (b0 + 0x100 * b1 + 0x10000 * b2 + 0x1000000 * b3 + 0x100000000 * b4 + 0x10000000000 * b5
        + 0x1000000000000 * b6 + 0x100000000000000 * b7) as u64
}

pub fn read_u16_le(b0: u8, b1: u8) -> (r: u16)
    ensures
        r == u16_le(b0, b1),
{
    b0 as u16 + 256 * (b1 as u16)
}

pub fn read_i16_le(b0: u8, b1: u8) -> (r: i16)
    ensures
        r == i16_le(b0, b1),
{
    let v: u32 = b0 as u32 + 256 * (b1 as u32);
    if v < 32768 {
        v as i16
    } else {
        (v as i32 - 65536) as i16
    }
}

pub fn read_u32_le(b0: u8, b1: u8, b2: u8, b3: u8) -> (r: u32)
    ensures
        r == u32_le(b0, b1, b2, b3),
{
    b0 as u32 + 0x100 * (b1 as u32) + 0x10000 * (b2 as u32) + 0x1000000 * (b3 as u32)
}

pub fn read_u64_le(b0: u8, b1: u8, b2: u8, b3: u8, b4: u8, b5: u8, b6: u8, b7: u8) -> (r: u64)
    ensures
        r == u64_le(b0, b1, b2, b3, b4, b5, b6, b7),
{
    b0 as u64 + 0x100 * (b1 as u64) + 0x10000 * (b2 as u64) + 0x1000000 * (b3 as u64)
        + 0x100000000 * (b4 as u64) + 0x10000000000 * (b5 as u64)
        + 0x1000000000000 * (b6 as u64) + 0x100000000000000 * (b7 as u64)
}

/// Selects the point-record byte layout for an entire pipeline run:
/// 10 bytes per record in `Normal` mode, 17 in `Debug` mode. The wire format
/// carries no discriminator of its own; the caller supplies the mode once.
#[derive(Clone, Copy, Debug, PartialEq, Eq, Structural)]
pub enum ParseMode {
    Normal,
    Debug,
}

impl ParseMode {
    /// Size in bytes of one point record under this mode.
    pub open spec fn spec_record_size(self) -> int {
        match self {
            ParseMode::Normal => 10,
            ParseMode::Debug => 17,
        }
    }

    pub fn record_size(self) -> (n: usize)
        ensures
            n == self.spec_record_size(),
    {
        match self {
            ParseMode::Normal => 10,
            ParseMode::Debug => 17,
        }
    }
}

/// STDV sensor packet header (24 bytes on the wire).
#[derive(Clone, Copy, Debug)]
pub struct StdvHeader {
    /// Always the ASCII marker "STDV" in a successfully parsed header.
    pub signature: [u8; 4],
    pub header_version: u8,
    pub header_size: u8,
    pub flags: u16,
    /// Microseconds since sensor boot.
    pub timestamp: u64,
    pub point_version: u8,
    pub point_size: u8,
    /// Declared number of point records; at most 144 in practice, but the
    /// decoder does not enforce that bound — callers treat it defensively.
    pub point_count: u16,
    pub sequence_id: u32,
}

/// The 4-byte ASCII signature "STDV" opens every sensor packet.
pub open spec fn signature_ok(data: Seq<u8>) -> bool {
    data.len() >= 4 && data[0] == 0x53u8 && data[1] == 0x54u8 && data[2] == 0x44u8 && data[3]
        == 0x56u8
}

/// What `StdvHeader::parse` yields on any byte sequence: `None` when the
/// input is shorter than 24 bytes or the signature does not match, otherwise
/// the decoded field values.
pub open spec fn spec_parse_header(data: Seq<u8>) -> Option<StdvHeader> {
    if data.len() < 24 || !signature_ok(data) {
        None
    } else {
        Some(
            StdvHeader {
                signature: [data[0], data[1], data[2], data[3]],
                header_version: data[4],
                header_size: data[5],
                flags: u16_le(data[6], data[7]),
                timestamp: u64_le(
                    data[8],
                    data[9],
                    data[10],
                    data[11],
                    data[12],
                    data[13],
                    data[14],
                    data[15],
                ),
                point_version: data[16],
                point_size: data[17],
                point_count: u16_le(data[18], data[19]),
                sequence_id: u32_le(data[20], data[21], data[22], data[23]),
            },
        )
    }
}

/// The 24 bytes that carry the given header field values on the wire:
/// the inverse layout of `spec_parse_header`, with every multi-byte field
/// in little-endian order.
pub open spec fn spec_encode_header(h: StdvHeader) -> Seq<u8> {
    seq![
        0x53u8,
        0x54u8,
        0x44u8,
        0x56u8,
        h.header_version,
        h.header_size,
        (h.flags % 0x100) as u8,
        (h.flags / 0x100) as u8,
        (h.timestamp % 0x100) as u8,
        ((h.timestamp / 0x100) % 0x100) as u8,
        ((h.timestamp / 0x10000) % 0x100) as u8,
        ((h.timestamp / 0x1000000) % 0x100) as u8,
        ((h.timestamp / 0x100000000) % 0x100) as u8,
        ((h.timestamp / 0x10000000000) % 0x100) as u8,
        ((h.timestamp / 0x1000000000000) % 0x100) as u8,
        (h.timestamp / 0x100000000000000) as u8,
        h.point_version,
        h.point_size,
        (h.point_count % 0x100) as u8,
        (h.point_count / 0x100) as u8,
        (h.sequence_id % 0x100) as u8,
        ((h.sequence_id / 0x100) % 0x100) as u8,
        ((h.sequence_id / 0x10000) % 0x100) as u8,
        (h.sequence_id / 0x1000000) as u8,
    ]
}

impl StdvHeader {
    /// Parse an STDV header from the front of a sensor payload. Returns
    /// `None` when the payload is too short or does not carry the signature:
    /// the packet is then not a sensor packet at all, which is not an error.
    pub fn parse(data: &[u8]) -> (r: Option<StdvHeader>)
        ensures
            r == spec_parse_header(data@),
    {
        if data.len() < 24 {
            return None;
        }
        if !(data[0] == 0x53 && data[1] == 0x54 && data[2] == 0x44 && data[3] == 0x56) {
            return None;
        }
        Some(
            StdvHeader {
                signature: [data[0], data[1], data[2], data[3]],
                header_version: data[4],
                header_size: data[5],
                flags: read_u16_le(data[6], data[7]),
                timestamp: read_u64_le(
                    data[8],
                    data[9],
                    data[10],
                    data[11],
                    data[12],
                    data[13],
                    data[14],
                    data[15],
                ),
                point_version: data[16],
                point_size: data[17],
                point_count: read_u16_le(data[18], data[19]),
                sequence_id: read_u32_le(data[20], data[21], data[22], data[23]),
            },
        )
    }
}

/// One decoded point record, still in raw wire units: coordinates are
/// signed/unsigned 16-bit integers at 0.5 cm resolution. The three trailing
/// fields are present exactly when the record was decoded in `Debug` mode.
#[derive(Clone, Copy, Debug, PartialEq, Eq)]
pub struct RawPoint {
    /// 0.5 cm units, signed.
    pub x: i16,
    /// 0.5 cm units, unsigned — the asymmetry is part of the wire format.
    pub y: u16,
    /// 0.5 cm units, signed.
    pub z: i16,
    pub reflectivity: u8,
    /// Sub-packet timestamp, microseconds.
    pub timestamp: u8,
    /// Channel/laser identifier, the sole demultiplexing key.
    pub laser_id: u8,
    pub flags: u8,
    pub distance: Option<u32>,
    pub intensity: Option<u16>,
    pub power_level: Option<u8>,
}

/// What `RawPoint::parse_with_mode` yields on any byte sequence: `None` when
/// fewer than `mode.spec_record_size()` bytes are available, otherwise the
/// decoded record. In `Debug` mode the trailing 7 bytes fill the three
/// extra fields; in `Normal` mode those fields are absent.
pub open spec fn spec_parse_point(data: Seq<u8>, mode: ParseMode) -> Option<RawPoint> {
    if data.len() < mode.spec_record_size() {
        None
    } else {
        Some(
            RawPoint {
                x: i16_le(data[0], data[1]),
                y: u16_le(data[2], data[3]),
                z: i16_le(data[4], data[5]),
                reflectivity: data[6],
                timestamp: data[7],
                laser_id: data[8],
                flags: data[9],
                distance: if mode is Debug {
                    Some(u32_le(data[10], data[11], data[12], data[13]))
                } else {
                    None
                },
                intensity: if mode is Debug {
                    Some(u16_le(data[14], data[15]))
                } else {
                    None
                },
                power_level: if mode is Debug {
                    Some(data[16])
                } else {
                    None
                },
            },
        )
    }
}

impl RawPoint {
    /// Parse one point record from the front of `data` under the given mode.
    /// Returns `None` exactly when `data` is shorter than the record size.
    pub fn parse_with_mode(data: &[u8], mode: ParseMode) -> (r: Option<RawPoint>)
        ensures
            r == spec_parse_point(data@, mode),
    {
        let size = mode.record_size();
        if data.len() < size {
            return None;
        }
        let debug = match mode {
            ParseMode::Normal => false,
            ParseMode::Debug => true,
        };
        Some(
            RawPoint {
                x: read_i16_le(data[0], data[1]),
                y: read_u16_le(data[2], data[3]),
                z: read_i16_le(data[4], data[5]),
                reflectivity: data[6],
                timestamp: data[7],
                laser_id: data[8],
                flags: data[9],
                distance: if debug {
                    Some(read_u32_le(data[10], data[11], data[12], data[13]))
                } else {
                    None
                },
                intensity: if debug {
                    Some(read_u16_le(data[14], data[15]))
                } else {
                    None
                },
                power_level: if debug {
                    Some(data[16])
                } else {
                    None
                },
            },
        )
    }

    /// Parse one point record in the plain 10-byte layout.
    pub fn parse(data: &[u8]) -> (r: Option<RawPoint>)
        ensures
            r == spec_parse_point(data@, ParseMode::Normal),
    {
        RawPoint::parse_with_mode(data, ParseMode::Normal)
    }

    /// The channel/laser identifier, returned unmodified.
    pub fn channel(&self) -> (c: u8)
        ensures
            c == self.laser_id,
    {
        self.laser_id
    }
}

/// The record at index `i` of a sensor payload: decoded from byte offset
/// `24 + i * record_size`, or absent when the payload ends before the record
/// does. The trailing record of a packet is commonly cut short this way.
pub open spec fn rec_at(payload: Seq<u8>, mode: ParseMode, i: int) -> Option<RawPoint> {
    let off = 24 + i * mode.spec_record_size();
    if 0 <= i && off + mode.spec_record_size() <= payload.len() {
        spec_parse_point(payload.skip(off), mode)
    } else {
        None
    }
}

/// The records at indices `0 .. n` of a sensor payload that are in bounds,
/// in index order.
pub open spec fn packet_points_up_to(payload: Seq<u8>, mode: ParseMode, n: int) -> Seq<RawPoint>
    decreases n,
{
    if n <= 0 {
        Seq::empty()
    } else {
        match rec_at(payload, mode, n - 1) {
            Some(p) => packet_points_up_to(payload, mode, n - 1).push(p),
            None => packet_points_up_to(payload, mode, n - 1),
        }
    }
}

/// Every point a sensor payload contributes: none when its header does not
/// parse, otherwise the in-bounds records among the declared count.
pub open spec fn packet_points(payload: Seq<u8>, mode: ParseMode) -> Seq<RawPoint> {
    match spec_parse_header(payload) {
        Some(h) => packet_points_up_to(payload, mode, h.point_count as int),
        None => Seq::empty(),
    }
}

} // verus!
