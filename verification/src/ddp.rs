//! Pixel-transport codec: splits one logical RGB frame into framed datagrams.
//!
//! Each datagram carries a 10-byte header followed by a contiguous payload
//! slice of at most 1440 bytes.  The header holds a flags byte (0x40 always
//! set, 0x01 on the final datagram of the frame), a sequence number derived
//! from the frame counter, two constant tag bytes, the big-endian 32-bit
//! offset of the payload within the logical frame, and the big-endian 16-bit
//! payload length.  The codec is stateless across calls.

use vstd::prelude::*;

verus! {

use vstd::math::min;

/// Largest payload carried by one datagram: 480 pixels of 3 bytes each.
pub const MAX_PAYLOAD: usize = 1440;

/// One datagram of the pixel transport, before wire encoding.
pub struct DdpDatagram {
    /// Sequence number shared by every datagram of one logical frame.
    pub sequence: u8,
    /// True only on the datagram that ends the logical frame.
    pub is_final: bool,
    /// Offset of this payload within the logical frame, in bytes.
    pub offset: u32,
    /// The payload slice carried by this datagram.
    pub payload: Vec<u8>,
}

/// The sequence number carried by a frame with counter `frame_count`:
/// cycles through 1..=15, advancing by one per logical frame.
pub open spec fn spec_sequence(frame_count: u8) -> u8 {
    ((frame_count as int % 15) + 1) as u8
}

/// The flags byte of a datagram: 0x40 always set, 0x01 exactly on the final one.
pub open spec fn spec_flags_byte(is_final: bool) -> u8 {
    if is_final {
        0x41
    } else {
        0x40
    }
}

/// The 10-byte wire header of a datagram.
pub open spec fn spec_header(d: DdpDatagram) -> Seq<u8> {
    seq![
        spec_flags_byte(d.is_final),
        d.sequence,
        0x01u8,
        0x01u8,
        (d.offset >> 24u32) as u8,
        ((d.offset >> 16u32) & 0xff) as u8,
        ((d.offset >> 8u32) & 0xff) as u8,
        (d.offset & 0xff) as u8,
        ((d.payload@.len() as u16) >> 8u16) as u8,
        ((d.payload@.len() as u16) & 0xff) as u8,
    ]
}

/// The full wire form of a datagram: header followed by payload.
pub open spec fn spec_wire_bytes(d: DdpDatagram) -> Seq<u8> {
    spec_header(d) + d.payload@
}

/// What `packetize` guarantees of its output `r` for inputs
/// `(offset, data, frame_count)`: the datagrams cover `data` contiguously and
/// disjointly in 1440-byte steps, all share the frame's sequence number, and
/// exactly the last one is final.
pub open spec fn is_packetization(
    offset: int,
    data: Seq<u8>,
    frame_count: u8,
    r: Seq<DdpDatagram>,
) -> bool {
    &&& r.len() == if data.len() == 0 {
        1int
    } else {
        (data.len() - 1) / (MAX_PAYLOAD as int) + 1
    }
    &&& forall|i: int|
        0 <= i < r.len() ==> (#[trigger] r[i]).sequence == spec_sequence(frame_count)
    &&& forall|i: int| 0 <= i < r.len() ==> (#[trigger] r[i]).offset == offset + i * MAX_PAYLOAD
    &&& forall|i: int|
        0 <= i < r.len() ==> (#[trigger] r[i]).payload@ == data.subrange(
            i * MAX_PAYLOAD,
            min((i + 1) * MAX_PAYLOAD, data.len() as int),
        )
    &&& forall|i: int| 0 <= i < r.len() ==> ((#[trigger] r[i]).is_final <==> i == r.len() - 1)
}

/// Splits `data` into datagrams of at most 1440 payload bytes each, at
/// monotonically increasing offsets starting from `offset`, all carrying the
/// sequence number of this logical frame, with the final flag only on the
/// last.  An empty buffer yields one final datagram with an empty payload.
pub fn packetize(offset: u32, data: &Vec<u8>, frame_count: u8) -> (r: Vec<DdpDatagram>)
    requires
        offset + data@.len() <= u32::MAX,
    ensures
        is_packetization(offset as int, data@, frame_count, r@),
{
    let sequence: u8 = (frame_count % 15) + 1;
    let mut r: Vec<DdpDatagram> = Vec::new();
    if data.len() == 0 {
        r.push(DdpDatagram { sequence, is_final: true, offset, payload: Vec::new() });
        proof {
            assert(r@[0].payload@ =~= data@.subrange(0, min(MAX_PAYLOAD as int, 0)));
        }
        return r;
    }
    let mut data_offset: usize = 0;
    while data_offset < data.len()
        invariant
            offset + data@.len() <= u32::MAX,
            data_offset as int == min(r@.len() * MAX_PAYLOAD, data@.len() as int),
            r@.len() == 0 || (r@.len() - 1) * MAX_PAYLOAD < data@.len(),
            sequence == spec_sequence(frame_count),
            forall|i: int| 0 <= i < r@.len() ==> (#[trigger] r@[i]).sequence == sequence,
            forall|i: int|
                0 <= i < r@.len() ==> (#[trigger] r@[i]).offset == offset + i * MAX_PAYLOAD,
            forall|i: int|
                0 <= i < r@.len() ==> (#[trigger] r@[i]).payload@ == data@.subrange(
                    i * MAX_PAYLOAD,
                    min((i + 1) * MAX_PAYLOAD, data@.len() as int),
                ),
            forall|i: int|
                0 <= i < r@.len() ==> ((#[trigger] r@[i]).is_final <==> (i + 1) * MAX_PAYLOAD
                    >= data@.len()),
        decreases data@.len() - data_offset,
    {
        let chunk_end = if data.len() - data_offset > MAX_PAYLOAD {
            data_offset + MAX_PAYLOAD
        } else {
            data.len()
        };
        let is_last = chunk_end == data.len();
        let mut payload: Vec<u8> = Vec::new();
        let mut j = data_offset;
        while j < chunk_end
            invariant
                data_offset <= j <= chunk_end <= data@.len(),
                payload@ == data@.subrange(data_offset as int, j as int),
            decreases chunk_end - j,
        {
            payload.push(data[j]);
            proof {
                assert(payload@ =~= data@.subrange(data_offset as int, j + 1));
            }
            j += 1;
        }
        let d = DdpDatagram {
            sequence,
            is_final: is_last,
            offset: offset + data_offset as u32,
            payload,
        };
        r.push(d);
        data_offset = chunk_end;
    }
    proof {
        let len = data@.len() as int;
        let n = r@.len() as int;
        if len == 0 {
            assert(n == 0);
        } else {
            assert(n * MAX_PAYLOAD >= len);
            assert((n - 1) * MAX_PAYLOAD < len);
            let rem = (len - 1) - (n - 1) * (MAX_PAYLOAD as int);
            vstd::arithmetic::div_mod::lemma_fundamental_div_mod_converse(
                len - 1,
                MAX_PAYLOAD as int,
                n - 1,
                rem,
            );
            assert(n == (len - 1) / (MAX_PAYLOAD as int) + 1);
            assert forall|i: int| 0 <= i < n implies ((#[trigger] r@[i]).is_final <==> i == n
                - 1) by {
                if i < n - 1 {
                    assert((i + 1) * MAX_PAYLOAD <= (n - 1) * MAX_PAYLOAD) by {
                        vstd::arithmetic::mul::lemma_mul_inequality(i + 1, n - 1, MAX_PAYLOAD as int);
                    }
                }
            }
        }
    }
    r
}

/// Encodes one datagram into its wire bytes: the 10-byte header, then the payload.
pub fn encode_datagram(d: &DdpDatagram) -> (out: Vec<u8>)
    requires
        d.payload@.len() <= MAX_PAYLOAD,
    ensures
        out@ == spec_wire_bytes(*d),
{
    let mut out: Vec<u8> = Vec::new();
    let flags: u8 = if d.is_final {
        0x41
    } else {
        0x40
    };
    out.push(flags);
    out.push(d.sequence);
    out.push(0x01);
    out.push(0x01);
    out.push((d.offset >> 24u32) as u8);
    out.push(((d.offset >> 16u32) & 0xff) as u8);
    out.push(((d.offset >> 8u32) & 0xff) as u8);
    out.push((d.offset & 0xff) as u8);
    let len16: u16 = d.payload.len() as u16;
    out.push((len16 >> 8u16) as u8);
    out.push((len16 & 0xff) as u8);
    proof {
        assert(out@ =~= spec_header(*d));
    }
    let mut i: usize = 0;
    while i < d.payload.len()
        invariant
            i <= d.payload@.len(),
            out@ == spec_header(*d) + d.payload@.subrange(0, i as int),
        decreases d.payload@.len() - i,
    {
        out.push(d.payload[i]);
        proof {
            assert(out@ =~= spec_header(*d) + d.payload@.subrange(0, i + 1));
        }
        i += 1;
    }
    proof {
        assert(out@ =~= spec_wire_bytes(*d));
    }
    out
}

/// The payloads of a datagram sequence, concatenated in order.
pub open spec fn concat_payloads(r: Seq<DdpDatagram>) -> Seq<u8>
    decreases r.len(),
{
    if r.len() == 0 {
        Seq::empty()
    } else {
        r.first().payload@ + concat_payloads(r.drop_first())
    }
}

/// The header of every emitted datagram has bit 0x40 set, has bit 0x01 set
/// exactly on the datagram that ends the logical frame, and carries a
/// sequence number in 1..=15 equal to `(frame_count mod 15) + 1`.
pub proof fn lemma_header_invariant(
    offset: int,
    data: Seq<u8>,
    frame_count: u8,
    r: Seq<DdpDatagram>,
    i: int,
)
    requires
        is_packetization(offset, data, frame_count, r),
        0 <= i < r.len(),
    ensures
        spec_wire_bytes(r[i])[0] & 0x40 == 0x40,
        spec_wire_bytes(r[i])[0] & 0x01 == (if r[i].is_final {
            1u8
        } else {
            0u8
        }),
        r[i].is_final <==> i == r.len() - 1,
        1 <= spec_wire_bytes(r[i])[1] <= 15,
        spec_wire_bytes(r[i])[1] == (frame_count as int % 15) + 1,
{
    let b0 = spec_wire_bytes(r[i])[0];
    assert(b0 == spec_flags_byte(r[i].is_final));
    assert(0x41u8 & 0x40 == 0x40) by (bit_vector);
    assert(0x40u8 & 0x40 == 0x40) by (bit_vector);
    assert(0x41u8 & 0x01 == 1) by (bit_vector);
    assert(0x40u8 & 0x01 == 0) by (bit_vector);
}

/// A buffer of at most 1440 bytes travels as exactly one datagram, which is
/// final and sits at the frame's base offset.
pub proof fn lemma_small_buffer_single_datagram(
    offset: int,
    data: Seq<u8>,
    frame_count: u8,
    r: Seq<DdpDatagram>,
)
    requires
        is_packetization(offset, data, frame_count, r),
        data.len() <= MAX_PAYLOAD,
    ensures
        r.len() == 1,
        r[0].is_final,
        r[0].offset == offset,
        r[0].payload@ == data,
{
    assert(r[0].payload@ == data.subrange(0, min(MAX_PAYLOAD as int, data.len() as int)));
    assert(data.subrange(0, data.len() as int) =~= data);
}

/// The emitted datagrams partition the buffer contiguously and disjointly:
/// datagram `i` sits at offset `offset + 1440 * i`, and the payloads
/// concatenated in order reproduce the buffer exactly.
pub proof fn lemma_payloads_partition(
    offset: int,
    data: Seq<u8>,
    frame_count: u8,
    r: Seq<DdpDatagram>,
)
    requires
        is_packetization(offset, data, frame_count, r),
    ensures
        concat_payloads(r) == data,
        forall|i: int| 0 <= i < r.len() ==> (#[trigger] r[i]).offset == offset + i * MAX_PAYLOAD,
{
    lemma_concat_from(offset, data, frame_count, r, 0);
    assert(r.skip(0) =~= r);
    assert(data.skip(0) =~= data);
}

/// Helper for `lemma_payloads_partition`: the tail of the datagram list from
/// position `k` reproduces the tail of the buffer from byte `1440 * k`
/// (clamped to the buffer's end).
proof fn lemma_concat_from(
    offset: int,
    data: Seq<u8>,
    frame_count: u8,
    r: Seq<DdpDatagram>,
    k: int,
)
    requires
        is_packetization(offset, data, frame_count, r),
        0 <= k <= r.len(),
    ensures
        concat_payloads(r.skip(k)) == data.skip(min(k * MAX_PAYLOAD, data.len() as int)),
    decreases r.len() - k,
{
    let len = data.len() as int;
    if len > 0 {
        vstd::arithmetic::div_mod::lemma_fundamental_div_mod(len - 1, MAX_PAYLOAD as int);
        vstd::arithmetic::div_mod::lemma_mod_bound(len - 1, MAX_PAYLOAD as int);
    }
    if k == r.len() {
        if len == 0 {
            assert(data.skip(0) =~= Seq::<u8>::empty());
        } else {
            assert(k * MAX_PAYLOAD >= len);
            assert(data.skip(len) =~= Seq::<u8>::empty());
        }
        assert(concat_payloads(r.skip(k)) =~= Seq::<u8>::empty());
    } else if len == 0 {
        assert(k == 0 && r.len() == 1);
        let tail = r.skip(0);
        assert(tail.first() == r[0]);
        assert(tail.drop_first() =~= r.skip(1));
        assert(r[0].payload@ == data.subrange(0, min(MAX_PAYLOAD as int, 0)));
        assert(r[0].payload@ =~= Seq::<u8>::empty());
        lemma_concat_from(offset, data, frame_count, r, 1);
        assert(concat_payloads(r.skip(0)) =~= data.skip(0));
    } else {
        let tail = r.skip(k);
        assert(tail.first() == r[k]);
        assert(tail.drop_first() =~= r.skip(k + 1));
        assert(k * MAX_PAYLOAD <= (r.len() - 1) * MAX_PAYLOAD) by {
            vstd::arithmetic::mul::lemma_mul_inequality(k, r.len() - 1, MAX_PAYLOAD as int);
        }
        assert((r.len() - 1) * MAX_PAYLOAD <= len - 1);
        let lo = k * MAX_PAYLOAD;
        let hi = min((k + 1) * MAX_PAYLOAD, len);
        assert(r[k].payload@ == data.subrange(lo, hi));
        lemma_concat_from(offset, data, frame_count, r, k + 1);
        assert(min(lo, len) == lo);
        assert(min((k + 1) * MAX_PAYLOAD, len) == hi);
        assert(concat_payloads(r.skip(k)) == data.subrange(lo, hi) + data.skip(hi));
        assert(data.subrange(lo, hi) + data.skip(hi) =~= data.skip(lo));
    }
}

} // verus!
