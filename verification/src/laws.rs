//! Properties that hold across the decoding pipeline as a whole.

use vstd::prelude::*;
use vstd::arithmetic::div_mod::{lemma_div_denominator, lemma_fundamental_div_mod};
use crate::cepton::{
    packet_points_up_to, rec_at, spec_encode_header, spec_parse_header, spec_parse_point, u16_le,
    u32_le, u64_le, ParseMode, RawPoint, StdvHeader,
};
use crate::pcap_reader::{
    channel_count, lemma_channel_points_add, magic_ok, packet_body_points, spec_capture_points,
    spec_extracted, CaptureError,
};

verus! {

broadcast use vstd::seq_lib::group_seq_lib_default;

/// Header round-trip: laying any header field values out in the 24-byte
/// wire format and decoding that buffer yields the same values again.
pub proof fn lemma_header_round_trip(h: StdvHeader)
    requires
        h.signature@ == seq![0x53u8, 0x54u8, 0x44u8, 0x56u8],
    ensures
        spec_parse_header(spec_encode_header(h)) == Some(h),
{
    let data = spec_encode_header(h);
    assert(data.len() == 24);
    lemma_fundamental_div_mod(h.flags as int, 0x100);
    assert(u16_le(data[6], data[7]) == h.flags);
    lemma_fundamental_div_mod(h.point_count as int, 0x100);
    assert(u16_le(data[18], data[19]) == h.point_count);
    let s = h.sequence_id as int;
    lemma_div_denominator(s, 0x100, 0x100);
    lemma_fundamental_div_mod(s, 0x100);
    lemma_fundamental_div_mod(s / 0x100, 0x100);
    lemma_fundamental_div_mod(s / 0x10000, 0x100);
    assert(u32_le(data[20], data[21], data[22], data[23]) == h.sequence_id);
    let t = h.timestamp as int;
    lemma_div_denominator(t, 0x100, 0x100);
    lemma_div_denominator(t, 0x10000, 0x100);
    lemma_div_denominator(t, 0x1000000, 0x100);
    lemma_div_denominator(t, 0x100000000, 0x100);
    lemma_div_denominator(t, 0x10000000000, 0x100);
    lemma_div_denominator(t, 0x1000000000000, 0x100);
    lemma_fundamental_div_mod(t, 0x100);
    lemma_fundamental_div_mod(t / 0x100, 0x100);
    lemma_fundamental_div_mod(t / 0x10000, 0x100);
    lemma_fundamental_div_mod(t / 0x1000000, 0x100);
    lemma_fundamental_div_mod(t / 0x100000000, 0x100);
    lemma_fundamental_div_mod(t / 0x10000000000, 0x100);
    lemma_fundamental_div_mod(t / 0x1000000000000, 0x100);
    assert(u64_le(data[8], data[9], data[10], data[11], data[12], data[13], data[14], data[15])
        == h.timestamp);
    let parsed = spec_parse_header(data)->Some_0;
    assert(parsed.signature =~= h.signature);
    assert(parsed == h);
}

/// Count–extract agreement: for any decoded capture, the scan pass's count
/// for a channel equals the length of the sequence an extract pass produces
/// for it, whenever that channel is requested.
pub proof fn lemma_count_extract_agreement(pts: Seq<RawPoint>, selected: Seq<u8>, c: u8)
    requires
        selected.contains(c),
    ensures
        spec_extracted(pts, selected, c).len() == channel_count(pts, c),
{
}

/// Order preservation: on every channel, the points contributed by an
/// earlier part of the capture precede those of a later part, so extraction
/// keeps capture order.
pub proof fn lemma_order_preservation(
    earlier: Seq<RawPoint>,
    later: Seq<RawPoint>,
    selected: Seq<u8>,
    c: u8,
)
    ensures
        spec_extracted(earlier + later, selected, c) == spec_extracted(earlier, selected, c)
            + spec_extracted(later, selected, c),
{
    if selected.contains(c) {
        lemma_channel_points_add(earlier, later, c);
    } else {
        assert(spec_extracted(earlier, selected, c) + spec_extracted(later, selected, c)
            =~= Seq::<RawPoint>::empty());
    }
}

/// Bounds safety: once a record index falls past the end of the payload,
/// that record and all the ones declared after it are simply absent from
/// the output.
pub proof fn lemma_out_of_bounds_records_absent(payload: Seq<u8>, mode: ParseMode, i: int, n: int)
    requires
        0 <= i <= n,
        24 + (i + 1) * mode.spec_record_size() > payload.len(),
    ensures
        packet_points_up_to(payload, mode, n) == packet_points_up_to(payload, mode, i),
    decreases n,
{
    if n > i {
        lemma_out_of_bounds_records_absent(payload, mode, i, n - 1);
        let size = mode.spec_record_size();
        assert((i + 1) * size <= n * size) by (nonlinear_arith)
            requires
                i + 1 <= n,
                size >= 0,
        ;
        assert(24 + (n - 1) * size + size == 24 + n * size) by (nonlinear_arith);
        assert(rec_at(payload, mode, n - 1) is None);
    }
}

/// Fatal boundary: a capture whose global magic number matches neither
/// accepted pattern fails immediately with the format fault, whatever bytes
/// follow.
pub proof fn lemma_bad_magic_fatal(data: Seq<u8>, mode: ParseMode)
    requires
        !magic_ok(data),
    ensures
        spec_capture_points(data, mode) == Err::<Seq<RawPoint>, CaptureError>(CaptureError::Format),
{
}

/// Skip boundary: a packet too short for the link-layer prefix, or whose
/// payload does not carry the sensor signature, contributes no points and is
/// never fatal — the capture still decodes around it.
pub proof fn lemma_non_sensor_packet_skipped(body: Seq<u8>, mode: ParseMode)
    requires
        body.len() < 42 || spec_parse_header(body.skip(42)) is None,
    ensures
        packet_body_points(body, mode) == Seq::<RawPoint>::empty(),
{
}

/// Mode sensitivity: a record's decoding depends only on the active mode's
/// record size and the bytes inside that window, never on trailing content —
/// two inputs that agree on the window decode identically.
pub proof fn lemma_record_follows_mode(s1: Seq<u8>, s2: Seq<u8>, mode: ParseMode)
    requires
        s1.len() >= mode.spec_record_size(),
        s2.len() >= mode.spec_record_size(),
        s1.subrange(0, mode.spec_record_size()) == s2.subrange(0, mode.spec_record_size()),
    ensures
        spec_parse_point(s1, mode) == spec_parse_point(s2, mode),
{
    let size = mode.spec_record_size();
    assert forall|k: int| 0 <= k < size implies s1[k] == s2[k] by {
        assert(s1.subrange(0, size)[k] == s1[k]);
        assert(s2.subrange(0, size)[k] == s2[k]);
    }
    assert(spec_parse_point(s1, mode)->Some_0 == spec_parse_point(s2, mode)->Some_0);
}

} // verus!
