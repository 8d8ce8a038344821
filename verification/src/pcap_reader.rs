//! Capture container framing and the two extraction passes.
//!
//! A capture file opens with a 24-byte global header whose first four bytes
//! must be one of two accepted magic patterns. After it, each packet is
//! framed by a 16-byte record header whose bytes 8–11 give the length of the
//! packet body that follows. A body long enough to hold the fixed 42-byte
//! Ethernet/IPv4/UDP prefix is stripped to a sensor payload; everything
//! shorter, and every payload that is not a sensor packet, is silently
//! skipped. Only a bad magic number or a body the file cannot supply is
//! fatal.

use vstd::prelude::*;
use vstd::slice::slice_subrange;
use crate::cepton::{
    packet_points, packet_points_up_to, rec_at, spec_parse_header, u32_le, ParseMode, RawPoint,
    StdvHeader,
};

verus! {

broadcast use vstd::seq_lib::group_seq_lib_default;

/// A structural fault in the capture container. Either fatal error aborts a
/// pass immediately; everything else is skip-and-continue.
#[derive(Clone, Copy, Debug, PartialEq, Eq, Structural)]
pub enum CaptureError {
    /// The capture is missing its 24-byte global header or its magic number
    /// matches neither accepted byte pattern.
    Format,
    /// A packet record header at byte `offset` declared a body of `declared`
    /// bytes that the capture could not supply.
    TruncatedPacket { offset: usize, declared: usize },
}

/// Every point one packet body contributes: none when the body cannot hold
/// the 42-byte link-layer prefix, otherwise the points of the sensor payload
/// behind that prefix.
pub open spec fn packet_body_points(body: Seq<u8>, mode: ParseMode) -> Seq<RawPoint> {
    if body.len() < 42 {
        Seq::empty()
    } else {
        packet_points(body.skip(42), mode)
    }
}

/// In-bounds records of one payload occupy disjoint byte ranges past the
/// 24-byte header, so the point count is bounded by the payload length.
pub proof fn lemma_packet_points_up_to_bound(payload: Seq<u8>, mode: ParseMode, n: int)
    requires
        n >= 0,
    ensures
        packet_points_up_to(payload, mode, n).len() <= n,
        packet_points_up_to(payload, mode, n).len() > 0 ==> 24 + packet_points_up_to(
            payload,
            mode,
            n,
        ).len() * mode.spec_record_size() <= payload.len(),
    decreases n,
{
    if n <= 0 {
    } else {
        lemma_packet_points_up_to_bound(payload, mode, n - 1);
        let prev = packet_points_up_to(payload, mode, n - 1);
        let size = mode.spec_record_size();
        match rec_at(payload, mode, n - 1) {
            Some(p) => {
                assert(24 + (n - 1) * size + size <= payload.len());
                assert(prev.len() <= n - 1);
                assert((prev.len() + 1) * size <= n * size) by (nonlinear_arith)
                    requires
                        prev.len() <= n - 1,
                        size >= 0,
                ;
                assert((n - 1) * size + size == n * size) by (nonlinear_arith);
            },
            None => {},
        }
    }
}

/// A packet body never contributes more points than it has bytes.
pub proof fn lemma_packet_body_points_bound(body: Seq<u8>, mode: ParseMode)
    ensures
        packet_body_points(body, mode).len() <= body.len(),
{
    if body.len() < 42 {
    } else {
        let payload = body.skip(42);
        match spec_parse_header(payload) {
            Some(h) => {
                lemma_packet_points_up_to_bound(payload, mode, h.point_count as int);
                let len = packet_points_up_to(payload, mode, h.point_count as int).len();
                let size = mode.spec_record_size();
                if len > 0 {
                    assert(len <= len * size) by (nonlinear_arith)
                        requires
                            len >= 1,
                            size >= 10,
                    ;
                }
            },
            None => {},
        }
    }
}

/// Decode every point one packet body contributes, in record order.
pub fn decode_packet_points(body: &[u8], mode: ParseMode) -> (pts: Vec<RawPoint>)
    ensures
        pts@ == packet_body_points(body@, mode),
{
    let mut pts: Vec<RawPoint> = Vec::new();
    if body.len() < 42 {
        return pts;
    }
    let payload: &[u8] = slice_subrange(body, 42, body.len());
    assert(payload@ =~= body@.skip(42));
    let header = match StdvHeader::parse(payload) {
        Some(h) => h,
        None => {
            return pts;
        },
    };
    let size = mode.record_size();
    let n = header.point_count as usize;
    for i in 0..n
        invariant
            n == spec_parse_header(payload@)->Some_0.point_count,
            spec_parse_header(payload@) is Some,
            payload@ == body@.skip(42),
            body@.len() >= 42,
            payload@.len() >= 24,
            size == mode.spec_record_size(),
            n <= 65535,
            pts@ == packet_points_up_to(payload@, mode, i as int),
    {
        proof {
            assert(i * size <= 65535 * 17) by (nonlinear_arith)
                requires
                    0 <= i <= 65535,
                    0 <= size <= 17,
            ;
        }
        let off: usize = 24 + i * size;
        if off + size <= payload.len() {
            let rec: &[u8] = slice_subrange(payload, off, payload.len());
            assert(rec@ =~= payload@.skip(off as int));
            match RawPoint::parse_with_mode(rec, mode) {
                Some(p) => {
                    pts.push(p);
                    proof {
                        assert(rec_at(payload@, mode, i as int) == Some(p));
                    }
                },
                None => {
                    assert(false);
                },
            }
        } else {
            proof {
                assert(rec_at(payload@, mode, i as int) is None);
            }
        }
    }
    proof {
        assert(pts@ == packet_points(payload@, mode));
    }
    pts
}

/// The capture's magic number, in either accepted byte order.
pub open spec fn magic_ok(data: Seq<u8>) -> bool {
    data.len() >= 24 && (u32_le(data[0], data[1], data[2], data[3]) == 0xa1b2c3d4u32 || u32_le(
        data[0],
        data[1],
        data[2],
        data[3],
    ) == 0xd4c3b2a1u32)
}

/// Every point the capture contributes from byte position `pos` on, in
/// capture order, or the first fatal framing fault. Fewer than 16 remaining
/// bytes end the stream cleanly; a declared body length the capture cannot
/// supply is fatal.
pub open spec fn points_from(data: Seq<u8>, pos: int, mode: ParseMode) -> Result<
    Seq<RawPoint>,
    CaptureError,
>
    decreases data.len() - pos,
{
    if pos < 0 || pos + 16 > data.len() {
        Ok(Seq::empty())
    } else {
        let incl = u32_le(data[pos + 8], data[pos + 9], data[pos + 10], data[pos + 11]) as int;
        if pos + 16 + incl > data.len() {
            Err(CaptureError::TruncatedPacket { offset: pos as usize, declared: incl as usize })
        } else {
            match points_from(data, pos + 16 + incl, mode) {
                Ok(rest) => Ok(
                    packet_body_points(data.subrange(pos + 16, pos + 16 + incl), mode) + rest,
                ),
                Err(e) => Err(e),
            }
        }
    }
}

/// Every point the capture contributes, in capture order, or the earliest
/// structural fault. This is the reference model both passes are proved
/// against.
pub open spec fn spec_capture_points(data: Seq<u8>, mode: ParseMode) -> Result<
    Seq<RawPoint>,
    CaptureError,
> {
    if !magic_ok(data) {
        Err(CaptureError::Format)
    } else {
        points_from(data, 24, mode)
    }
}

/// The subsequence of `pts` on channel `c`, in order.
pub open spec fn channel_points(pts: Seq<RawPoint>, c: u8) -> Seq<RawPoint> {
    pts.filter(|p: RawPoint| p.laser_id == c)
}

/// How many of `pts` lie on channel `c`.
pub open spec fn channel_count(pts: Seq<RawPoint>, c: u8) -> nat {
    channel_points(pts, c).len()
}

/// What an extract pass hands out for channel `c`: the channel's points in
/// capture order when `c` was requested, nothing otherwise.
pub open spec fn spec_extracted(pts: Seq<RawPoint>, selected: Seq<u8>, c: u8) -> Seq<RawPoint> {
    if selected.contains(c) {
        channel_points(pts, c)
    } else {
        Seq::empty()
    }
}

/// Appending one point extends exactly its own channel's subsequence.
pub proof fn lemma_channel_points_push(pts: Seq<RawPoint>, p: RawPoint, c: u8)
    ensures
        channel_points(pts.push(p), c) == if p.laser_id == c {
            channel_points(pts, c).push(p)
        } else {
            channel_points(pts, c)
        },
{
    reveal(Seq::filter);
    assert(pts.push(p).drop_last() =~= pts);
    assert(pts.push(p).last() == p);
}

/// A channel holds no more points than the whole capture.
pub proof fn lemma_channel_points_len(pts: Seq<RawPoint>, c: u8)
    ensures
        channel_points(pts, c).len() <= pts.len(),
{
}

/// Points of earlier packets precede points of later packets on every
/// channel: filtering distributes over concatenation.
pub proof fn lemma_channel_points_add(a: Seq<RawPoint>, b: Seq<RawPoint>, c: u8)
    ensures
        channel_points(a + b, c) == channel_points(a, c) + channel_points(b, c),
{
}

/// Linear scan for a channel identifier in the caller's selection.
pub fn contains_channel(selected: &[u8], c: u8) -> (r: bool)
    ensures
        r == selected@.contains(c),
{
    let mut k: usize = 0;
    while k < selected.len()
        invariant
            k <= selected@.len(),
            forall|i: int| 0 <= i < k ==> selected@[i] != c,
        decreases selected@.len() - k,
    {
        if selected[k] == c {
            return true;
        }
        k += 1;
    }
    false
}

/// Scan pass: count the points on every channel without storing any.
///
/// On success, entry `c` of the returned table is the number of points the
/// capture carries on channel `c`; the table always has 256 entries, one per
/// possible channel byte. Fails with exactly the fault `spec_capture_points`
/// assigns to the input; a malformed packet, payload or record is skipped,
/// never fatal.
pub fn scan_channels(data: &[u8], mode: ParseMode) -> (r: Result<Vec<usize>, CaptureError>)
    ensures
        match r {
            Ok(counts) => ({
                &&& spec_capture_points(data@, mode) matches Ok(pts)
                    && counts@.len() == 256
                    && forall|c: u8| #[trigger] counts@[c as int] == channel_count(pts, c)
            }),
            Err(e) => spec_capture_points(data@, mode) == Err::<Seq<RawPoint>, CaptureError>(e),
        },
{
    if data.len() < 24 {
        return Err(CaptureError::Format);
    }
    let magic = crate::cepton::read_u32_le(data[0], data[1], data[2], data[3]);
    if !(magic == 0xa1b2c3d4 || magic == 0xd4c3b2a1) {
        return Err(CaptureError::Format);
    }
    let mut counts: Vec<usize> = Vec::new();
    let mut k: usize = 0;
    while k < 256
        invariant
            counts@.len() == k,
            k <= 256,
            forall|j: int| 0 <= j < k ==> counts@[j] == 0usize,
        decreases 256 - k,
    {
        counts.push(0);
        k += 1;
    }
    let ghost mut done: Seq<RawPoint> = Seq::empty();
    let mut pos: usize = 24;
    proof {
        assert forall|c: u8| #[trigger] counts@[c as int] == channel_count(done, c) by {
            reveal(Seq::filter);
        }
    }
    while data.len() - pos >= 16
        invariant
            24 <= pos <= data@.len(),
            data@.len() <= usize::MAX,
            magic_ok(data@),
            counts@.len() == 256,
            done.len() <= pos - 24,
            forall|c: u8| #[trigger] counts@[c as int] == channel_count(done, c),
            points_from(data@, pos as int, mode) matches Ok(rest) ==> points_from(data@, 24, mode)
                == Ok::<Seq<RawPoint>, CaptureError>(done + rest),
            points_from(data@, pos as int, mode) matches Err(e) ==> points_from(data@, 24, mode)
                == Err::<Seq<RawPoint>, CaptureError>(e),
        decreases data@.len() - pos,
    {
        let incl = crate::cepton::read_u32_le(
            data[pos + 8],
            data[pos + 9],
            data[pos + 10],
            data[pos + 11],
        ) as usize;
        if incl > data.len() - (pos + 16) {
            return Err(CaptureError::TruncatedPacket { offset: pos, declared: incl });
        }
        let body: &[u8] = slice_subrange(data, pos + 16, pos + 16 + incl);
        let pkt = decode_packet_points(body, mode);
        proof {
            lemma_packet_body_points_bound(body@, mode);
        }
        proof {
            assert(pkt@.take(0) =~= Seq::<RawPoint>::empty());
            assert(done + pkt@.take(0) =~= done);
        }
        let mut j: usize = 0;
        while j < pkt.len()
            invariant
                counts@.len() == 256,
                j <= pkt@.len(),
                pkt@.len() <= incl,
                24 <= pos,
                pos + 16 + incl <= data@.len(),
                data@.len() <= usize::MAX,
                done.len() <= pos - 24,
                forall|c: u8| #[trigger] counts@[c as int] == channel_count(
                    done + pkt@.take(j as int),
                    c,
                ),
            decreases pkt@.len() - j,
        {
            let ghost sofar = done + pkt@.take(j as int);
            let p = pkt[j];
            let ch = p.laser_id as usize;
            proof {
                lemma_channel_points_len(sofar, p.laser_id);
                assert(channel_count(sofar, p.laser_id) <= sofar.len());
                assert(sofar.len() <= (pos - 24) + incl);
                assert(channel_count(sofar, p.laser_id) < usize::MAX);
            }
            let c0 = counts[ch];
            counts[ch] = c0 + 1;
            proof {
                assert(sofar.push(p) =~= done + pkt@.take(j as int + 1));
                assert forall|c: u8| #[trigger] counts@[c as int] == channel_count(
                    done + pkt@.take(j as int + 1),
                    c,
                ) by {
                    lemma_channel_points_push(sofar, p, c);
                }
            }
            j += 1;
        }
        proof {
            assert(pkt@.take(pkt@.len() as int) =~= pkt@);
            assert(body@ == data@.subrange(pos + 16, pos + 16 + incl));
            assert(points_from(data@, pos as int, mode) == match points_from(
                data@,
                pos + 16 + incl,
                mode,
            ) {
                Ok(rest) => Ok::<Seq<RawPoint>, CaptureError>(pkt@ + rest),
                Err(e) => Err::<Seq<RawPoint>, CaptureError>(e),
            });
            if let Ok(rest) = points_from(data@, pos + 16 + incl, mode) {
                assert(done + (pkt@ + rest) =~= (done + pkt@) + rest);
            }
            done = done + pkt@;
        }
        pos = pos + 16 + incl;
    }
    proof {
        assert(points_from(data@, pos as int, mode) == Ok::<Seq<RawPoint>, CaptureError>(
            Seq::<RawPoint>::empty(),
        ));
        assert(done + Seq::<RawPoint>::empty() =~= done);
    }
    Ok(counts)
}

/// What an extract pass produces: per-channel ordered point sequences and
/// the side-channel progress counter.
pub struct Extraction {
    /// One ordered sequence per possible channel byte, indexed by channel
    /// identifier; channels that were not requested stay empty.
    pub channels: Vec<Vec<RawPoint>>,
    /// Total number of points decoded, counted once per decoded point
    /// whether or not its channel was requested.
    pub decoded: usize,
}

/// Extract pass: collect the points of the requested channels, in capture
/// order.
///
/// On success, entry `c` of `channels` holds exactly the capture's points on
/// channel `c` when `c` is in `selected_channels`, and stays empty
/// otherwise; `decoded` counts every decoded point regardless of channel
/// membership. Fails with exactly the fault `spec_capture_points` assigns to
/// the input.
pub fn extract_points(data: &[u8], selected_channels: &[u8], mode: ParseMode) -> (r: Result<
    Extraction,
    CaptureError,
>)
    ensures
        match r {
            Ok(ext) => ({
                &&& spec_capture_points(data@, mode) matches Ok(pts)
                    && ext.channels@.len() == 256
                    && ext.decoded == pts.len()
                    && forall|c: u8| #[trigger] ext.channels@[c as int]@ == spec_extracted(
                        pts,
                        selected_channels@,
                        c,
                    )
            }),
            Err(e) => spec_capture_points(data@, mode) == Err::<Seq<RawPoint>, CaptureError>(e),
        },
{
    if data.len() < 24 {
        return Err(CaptureError::Format);
    }
    let magic = crate::cepton::read_u32_le(data[0], data[1], data[2], data[3]);
    if !(magic == 0xa1b2c3d4 || magic == 0xd4c3b2a1) {
        return Err(CaptureError::Format);
    }
    let mut channels: Vec<Vec<RawPoint>> = Vec::new();
    let mut k: usize = 0;
    while k < 256
        invariant
            channels@.len() == k,
            k <= 256,
            forall|j: int| 0 <= j < k ==> (#[trigger] channels@[j])@ == Seq::<RawPoint>::empty(),
        decreases 256 - k,
    {
        channels.push(Vec::new());
        k += 1;
    }
    let mut decoded: usize = 0;
    let ghost mut done: Seq<RawPoint> = Seq::empty();
    let mut pos: usize = 24;
    proof {
        assert forall|c: u8| #[trigger] channels@[c as int]@ == spec_extracted(
            done,
            selected_channels@,
            c,
        ) by {
            reveal(Seq::filter);
        }
    }
    while data.len() - pos >= 16
        invariant
            24 <= pos <= data@.len(),
            data@.len() <= usize::MAX,
            magic_ok(data@),
            channels@.len() == 256,
            done.len() <= pos - 24,
            decoded == done.len(),
            forall|c: u8| #[trigger] channels@[c as int]@ == spec_extracted(
                done,
                selected_channels@,
                c,
            ),
            points_from(data@, pos as int, mode) matches Ok(rest) ==> points_from(data@, 24, mode)
                == Ok::<Seq<RawPoint>, CaptureError>(done + rest),
            points_from(data@, pos as int, mode) matches Err(e) ==> points_from(data@, 24, mode)
                == Err::<Seq<RawPoint>, CaptureError>(e),
        decreases data@.len() - pos,
    {
        let incl = crate::cepton::read_u32_le(
            data[pos + 8],
            data[pos + 9],
            data[pos + 10],
            data[pos + 11],
        ) as usize;
        if incl > data.len() - (pos + 16) {
            return Err(CaptureError::TruncatedPacket { offset: pos, declared: incl });
        }
        let body: &[u8] = slice_subrange(data, pos + 16, pos + 16 + incl);
        let pkt = decode_packet_points(body, mode);
        proof {
            lemma_packet_body_points_bound(body@, mode);
            assert(pkt@.take(0) =~= Seq::<RawPoint>::empty());
            assert(done + pkt@.take(0) =~= done);
        }
        let mut j: usize = 0;
        while j < pkt.len()
            invariant
                channels@.len() == 256,
                j <= pkt@.len(),
                pkt@.len() <= incl,
                24 <= pos,
                pos + 16 + incl <= data@.len(),
                data@.len() <= usize::MAX,
                done.len() <= pos - 24,
                decoded == done.len() + j,
                forall|c: u8| #[trigger] channels@[c as int]@ == spec_extracted(
                    done + pkt@.take(j as int),
                    selected_channels@,
                    c,
                ),
            decreases pkt@.len() - j,
        {
            let ghost sofar = done + pkt@.take(j as int);
            let p = pkt[j];
            let ch = p.laser_id as usize;
            if contains_channel(selected_channels, p.laser_id) {
                channels[ch].push(p);
            }
            decoded += 1;
            proof {
                assert(sofar.push(p) =~= done + pkt@.take(j as int + 1));
                assert forall|c: u8| #[trigger] channels@[c as int]@ == spec_extracted(
                    done + pkt@.take(j as int + 1),
                    selected_channels@,
                    c,
                ) by {
                    lemma_channel_points_push(sofar, p, c);
                }
            }
            j += 1;
        }
        proof {
            assert(pkt@.take(pkt@.len() as int) =~= pkt@);
            assert(body@ == data@.subrange(pos + 16, pos + 16 + incl));
            assert(points_from(data@, pos as int, mode) == match points_from(
                data@,
                pos + 16 + incl,
                mode,
            ) {
                Ok(rest) => Ok::<Seq<RawPoint>, CaptureError>(pkt@ + rest),
                Err(e) => Err::<Seq<RawPoint>, CaptureError>(e),
            });
            if let Ok(rest) = points_from(data@, pos + 16 + incl, mode) {
                assert(done + (pkt@ + rest) =~= (done + pkt@) + rest);
            }
            done = done + pkt@;
        }
        pos = pos + 16 + incl;
    }
    proof {
        assert(points_from(data@, pos as int, mode) == Ok::<Seq<RawPoint>, CaptureError>(
            Seq::<RawPoint>::empty(),
        ));
        assert(done + Seq::<RawPoint>::empty() =~= done);
    }
    Ok(Extraction { channels, decoded })
}

} // verus!
