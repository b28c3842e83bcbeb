//! The container file format: the 24-byte file header, the 16-byte packet
//! frame header, and the byte-level meaning of both.  Everything is
//! little-endian.

use vstd::prelude::*;

use crate::packet::{PacketModel, NANOS_PER_SECOND};
use crate::types::{MAJOR_VERSION, MINOR_VERSION, PCAP_MAGIC_NUMBER};
use vstd::bytes::{
    spec_u16_from_le_bytes, spec_u16_to_le_bytes, spec_u32_from_le_bytes, spec_u32_to_le_bytes,
    u16_from_le_bytes, u32_from_le_bytes, u32_to_le_bytes,
};
use vstd::slice::slice_subrange;
use vstd::string::StringExecFns;

verus! {

/// Size of the container file header in bytes.
pub const FILE_HEADER_SIZE: usize = 24;

/// Size of a packet frame header in bytes.
pub const FRAME_HEADER_SIZE: usize = 16;

// ------------------------------------------------------------------
// Little-endian primitives over byte buffers
// ------------------------------------------------------------------
/// The u32 stored little-endian at `pos`.
pub open spec fn le32_at(b: Seq<u8>, pos: int) -> u32 {
    spec_u32_from_le_bytes(b.subrange(pos, pos + 4))
}

/// The u16 stored little-endian at `pos`.
pub open spec fn le16_at(b: Seq<u8>, pos: int) -> u16 {
    spec_u16_from_le_bytes(b.subrange(pos, pos + 2))
}

/// Reads the little-endian u32 at `pos`.
pub fn read_u32_at(bytes: &Vec<u8>, pos: usize) -> (r: u32)
    requires
        pos + 4 <= bytes@.len(),
    ensures
        r == le32_at(bytes@, pos as int),
{
    // The length call brings the vector's usize bound into scope, so the
    // offset arithmetic below cannot overflow.
    let _n = bytes.len();
    let s = slice_subrange(bytes.as_slice(), pos, pos + 4);
    u32_from_le_bytes(s)
}

/// Reads the little-endian u16 at `pos`.
pub fn read_u16_at(bytes: &Vec<u8>, pos: usize) -> (r: u16)
    requires
        pos + 2 <= bytes@.len(),
    ensures
        r == le16_at(bytes@, pos as int),
{
    // See `read_u32_at` on the length call.
    let _n = bytes.len();
    let s = slice_subrange(bytes.as_slice(), pos, pos + 2);
    u16_from_le_bytes(s)
}

/// Appends the little-endian bytes of `x`.
pub fn push_u32_le(out: &mut Vec<u8>, x: u32)
    ensures
        final(out)@ == old(out)@ + spec_u32_to_le_bytes(x),
{
    let mut le = u32_to_le_bytes(x);
    out.append(&mut le);
}

/// Appends the little-endian bytes of `x`.
pub fn push_u16_le(out: &mut Vec<u8>, x: u16)
    ensures
        final(out)@ == old(out)@ + spec_u16_to_le_bytes(x),
{
    let mut le = vstd::bytes::u16_to_le_bytes(x);
    out.append(&mut le);
}

// ------------------------------------------------------------------
// File header
// ------------------------------------------------------------------
/// The fields of the 24-byte container file header.
#[derive(Debug, Clone, Copy, PartialEq, Eq, Structural)]
pub struct PcapFileHeader {
    pub magic: u32,
    pub major: u16,
    pub minor: u16,
    pub thiszone: i32,
    pub sigfigs: u32,
    pub snaplen: u32,
    pub network: u32,
}

/// The 24 bytes that encode a file header.
pub open spec fn header_bytes_of(h: PcapFileHeader) -> Seq<u8> {
    spec_u32_to_le_bytes(h.magic) + spec_u16_to_le_bytes(h.major) + spec_u16_to_le_bytes(h.minor)
        + spec_u32_to_le_bytes(h.thiszone as u32) + spec_u32_to_le_bytes(h.sigfigs)
        + spec_u32_to_le_bytes(h.snaplen) + spec_u32_to_le_bytes(h.network)
}

/// A buffer opens with a well-formed header: long enough, right magic,
/// right format version.
pub open spec fn header_valid(b: Seq<u8>) -> bool {
    &&& b.len() >= FILE_HEADER_SIZE
    &&& le32_at(b, 0) == PCAP_MAGIC_NUMBER
    &&& le16_at(b, 4) == MAJOR_VERSION
    &&& le16_at(b, 6) == MINOR_VERSION
}

/// The header a fresh container file is given: fixed magic and version,
/// zero time fields, the requested snap length, and network 1.
pub open spec fn new_header(snaplen: u32) -> PcapFileHeader {
    PcapFileHeader {
        magic: PCAP_MAGIC_NUMBER,
        major: MAJOR_VERSION,
        minor: MINOR_VERSION,
        thiszone: 0,
        sigfigs: 0,
        snaplen,
        network: 1,
    }
}

impl PcapFileHeader {
    /// The magic and version fields hold the fixed constants.
    pub open spec fn valid(self) -> bool {
        &&& self.magic == PCAP_MAGIC_NUMBER
        &&& self.major == MAJOR_VERSION
        &&& self.minor == MINOR_VERSION
    }

    /// A fresh header for a new container file with the given snap length.
    pub fn new(snaplen: u32) -> (r: PcapFileHeader)
        ensures
            r == new_header(snaplen),
            r.valid(),
    {
        PcapFileHeader {
            magic: 0xD4C3B2A1,
            major: 2,
            minor: 4,
            thiszone: 0,
            sigfigs: 0,
            snaplen,
            network: 1,
        }
    }

    /// Whether the magic and version fields hold the fixed constants.
    pub fn is_valid(&self) -> (r: bool)
        ensures
            r == self.valid(),
    {
        self.magic == 0xD4C3B2A1 && self.major == 2 && self.minor == 4
    }

    /// Encodes the header as its 24 little-endian bytes.
    pub fn to_bytes(&self) -> (r: Vec<u8>)
        ensures
            r@ == header_bytes_of(*self),
            r@.len() == FILE_HEADER_SIZE,
    {
        let mut out: Vec<u8> = Vec::new();
        push_u32_le(&mut out, self.magic);
        push_u16_le(&mut out, self.major);
        push_u16_le(&mut out, self.minor);
        push_u32_le(&mut out, self.thiszone as u32);
        push_u32_le(&mut out, self.sigfigs);
        push_u32_le(&mut out, self.snaplen);
        push_u32_le(&mut out, self.network);
        proof {
            assert(out@ =~= header_bytes_of(*self));
            vstd::bytes::lemma_auto_spec_u16_to_from_le_bytes();
            vstd::bytes::lemma_auto_spec_u32_to_from_le_bytes();
        }
        out
    }

    /// Decodes the first 24 bytes of a buffer.  Fails exactly when the
    /// buffer is shorter than a file header.
    pub fn from_bytes(bytes: &Vec<u8>) -> (r: Result<PcapFileHeader, String>)
        ensures
            r is Ok <==> bytes@.len() >= FILE_HEADER_SIZE,
            r matches Ok(h) ==> {
                &&& h.magic == le32_at(bytes@, 0)
                &&& h.major == le16_at(bytes@, 4)
                &&& h.minor == le16_at(bytes@, 6)
                &&& h.thiszone as u32 == le32_at(bytes@, 8)
                &&& h.sigfigs == le32_at(bytes@, 12)
                &&& h.snaplen == le32_at(bytes@, 16)
                &&& h.network == le32_at(bytes@, 20)
            },
    {
        if bytes.len() < 24 {
            return Err(String::from_str("buffer shorter than a file header"));
        }
        let zone = read_u32_at(bytes, 8);
        proof {
            assert(zone as i32 as u32 == zone) by (bit_vector);
        }
        Ok(
            PcapFileHeader {
                magic: read_u32_at(bytes, 0),
                major: read_u16_at(bytes, 4),
                minor: read_u16_at(bytes, 6),
                thiszone: zone as i32,
                sigfigs: read_u32_at(bytes, 12),
                snaplen: read_u32_at(bytes, 16),
                network: read_u32_at(bytes, 20),
            },
        )
    }
}

// ------------------------------------------------------------------
// Frame header
// ------------------------------------------------------------------
/// The fields of a 16-byte packet frame header.
#[derive(Debug, Clone, Copy, PartialEq, Eq, Structural)]
pub struct DataPacketHeader {
    pub timestamp_seconds: u32,
    pub timestamp_nanoseconds: u32,
    pub packet_length: u32,
    pub checksum: u32,
}

/// The 16 bytes that encode a frame header.
pub open spec fn frame_header_bytes_of(h: DataPacketHeader) -> Seq<u8> {
    spec_u32_to_le_bytes(h.timestamp_seconds) + spec_u32_to_le_bytes(h.timestamp_nanoseconds)
        + spec_u32_to_le_bytes(h.packet_length) + spec_u32_to_le_bytes(h.checksum)
}

impl DataPacketHeader {
    /// The nanoseconds field stays below one second.
    pub open spec fn valid(self) -> bool {
        self.timestamp_nanoseconds < NANOS_PER_SECOND
    }

    /// The combined nanosecond timestamp.
    pub open spec fn spec_timestamp_ns(self) -> u64 {
        (self.timestamp_seconds * NANOS_PER_SECOND + self.timestamp_nanoseconds) as u64
    }

    /// Encodes the frame header as its 16 little-endian bytes.
    pub fn to_bytes(&self) -> (r: Vec<u8>)
        ensures
            r@ == frame_header_bytes_of(*self),
            r@.len() == FRAME_HEADER_SIZE,
    {
        let mut out: Vec<u8> = Vec::new();
        push_u32_le(&mut out, self.timestamp_seconds);
        push_u32_le(&mut out, self.timestamp_nanoseconds);
        push_u32_le(&mut out, self.packet_length);
        push_u32_le(&mut out, self.checksum);
        proof {
            assert(out@ =~= frame_header_bytes_of(*self));
            vstd::bytes::lemma_auto_spec_u32_to_from_le_bytes();
        }
        out
    }

    /// Decodes the 16 bytes at `pos`.  Fails exactly when the buffer is too
    /// short or the nanoseconds field is out of range.
    pub fn from_bytes_at(bytes: &Vec<u8>, pos: usize) -> (r: Result<DataPacketHeader, String>)
        ensures
            r is Ok <==> pos + FRAME_HEADER_SIZE <= bytes@.len() && le32_at(bytes@, pos + 4)
                < NANOS_PER_SECOND,
            r matches Ok(h) ==> {
                &&& h.timestamp_seconds == le32_at(bytes@, pos as int)
                &&& h.timestamp_nanoseconds == le32_at(bytes@, pos + 4)
                &&& h.packet_length == le32_at(bytes@, pos + 8)
                &&& h.checksum == le32_at(bytes@, pos + 12)
                &&& h.valid()
            },
    {
        if bytes.len() < 16 || pos > bytes.len() - 16 {
            return Err(String::from_str("buffer shorter than a frame header"));
        }
        let nanos = read_u32_at(bytes, pos + 4);
        if nanos >= 1_000_000_000 {
            return Err(String::from_str("nanoseconds field out of range"));
        }
        Ok(
            DataPacketHeader {
                timestamp_seconds: read_u32_at(bytes, pos),
                timestamp_nanoseconds: nanos,
                packet_length: read_u32_at(bytes, pos + 8),
                checksum: read_u32_at(bytes, pos + 12),
            },
        )
    }
}

// ------------------------------------------------------------------
// Frames within a buffer
// ------------------------------------------------------------------
/// The frame header for a packet model.
pub open spec fn frame_header_of(m: PacketModel) -> DataPacketHeader {
    DataPacketHeader {
        timestamp_seconds: m.seconds(),
        timestamp_nanoseconds: m.nanoseconds(),
        packet_length: m.data.len() as u32,
        checksum: m.checksum,
    }
}

/// The full frame encoding of a packet: 16-byte header plus payload.
pub open spec fn frame_bytes_of(m: PacketModel) -> Seq<u8> {
    frame_header_bytes_of(frame_header_of(m)) + m.data
}

/// A complete frame header is present at `pos`.
pub open spec fn frame_header_at(b: Seq<u8>, pos: int) -> bool {
    pos + FRAME_HEADER_SIZE <= b.len()
}

/// The payload length the frame header at `pos` declares.
pub open spec fn frame_len_at(b: Seq<u8>, pos: int) -> int {
    le32_at(b, pos + 8) as int
}

/// A well-formed frame starts at `pos`: full header, in-range nanoseconds,
/// and the declared payload fits in the remaining bytes.
pub open spec fn frame_ok_at(b: Seq<u8>, pos: int) -> bool {
    &&& frame_header_at(b, pos)
    &&& le32_at(b, pos + 4) < NANOS_PER_SECOND
    &&& pos + FRAME_HEADER_SIZE + frame_len_at(b, pos) <= b.len()
}

/// The packet encoded by the frame at `pos`.
pub open spec fn packet_at(b: Seq<u8>, pos: int) -> PacketModel {
    PacketModel {
        timestamp_ns: (le32_at(b, pos) * NANOS_PER_SECOND + le32_at(b, pos + 4)) as u64,
        data: b.subrange(pos + FRAME_HEADER_SIZE, pos + FRAME_HEADER_SIZE + frame_len_at(b, pos)),
        checksum: le32_at(b, pos + 12),
    }
}

/// A frame located in a buffer: its starting byte offset and its packet.
pub struct FrameModel {
    pub off: int,
    pub packet: PacketModel,
}

/// The frames that parse out of `b` starting at `pos`: the longest run of
/// well-formed frames, each beginning where the previous one ended.
pub open spec fn frames_from(b: Seq<u8>, pos: int) -> Seq<FrameModel>
    decreases b.len() - pos when 0 <= pos <= b.len()
{
    if frame_ok_at(b, pos) && 0 <= pos <= b.len() {
        seq![FrameModel { off: pos, packet: packet_at(b, pos) }] + frames_from(
            b,
            pos + FRAME_HEADER_SIZE + frame_len_at(b, pos),
        )
    } else {
        Seq::empty()
    }
}

/// The packets those frames carry.
pub open spec fn packets_from(b: Seq<u8>, pos: int) -> Seq<PacketModel> {
    frames_from(b, pos).map_values(|f: FrameModel| f.packet)
}

/// The packets a whole container file carries, after its 24-byte header.
pub open spec fn container_packets(b: Seq<u8>) -> Seq<PacketModel> {
    packets_from(b, FILE_HEADER_SIZE as int)
}

// ------------------------------------------------------------------
// Round-trip facts
// ------------------------------------------------------------------
/// The byte offset just past a frame.
pub open spec fn frame_end(f: FrameModel) -> int {
    f.off + FRAME_HEADER_SIZE + f.packet.data.len()
}

/// Every packet in the sequence can be framed.
pub open spec fn all_wf(ps: Seq<PacketModel>) -> bool {
    forall|i: int| 0 <= i < ps.len() ==> (#[trigger] ps[i]).wf()
}

/// The concatenated frames of a packet sequence.
pub open spec fn frames_bytes(ps: Seq<PacketModel>) -> Seq<u8>
    decreases ps.len(),
{
    if ps.len() == 0 {
        Seq::empty()
    } else {
        frame_bytes_of(ps[0]) + frames_bytes(ps.drop_first())
    }
}

/// The full byte image of a container file for a packet sequence.
pub open spec fn container_bytes(h: PcapFileHeader, ps: Seq<PacketModel>) -> Seq<u8> {
    header_bytes_of(h) + frames_bytes(ps)
}

/// Appending one packet appends its frame.
pub proof fn lemma_frames_bytes_push(ps: Seq<PacketModel>, p: PacketModel)
    ensures
        frames_bytes(ps.push(p)) == frames_bytes(ps) + frame_bytes_of(p),
    decreases ps.len(),
{
    reveal_with_fuel(frames_bytes, 3);
    if ps.len() == 0 {
        assert(ps.push(p).drop_first() =~= Seq::<PacketModel>::empty());
        assert(frames_bytes(ps.push(p)) =~= frames_bytes(ps) + frame_bytes_of(p));
    } else {
        assert(ps.push(p).drop_first() =~= ps.drop_first().push(p));
        lemma_frames_bytes_push(ps.drop_first(), p);
        assert(frames_bytes(ps.push(p)) =~= frames_bytes(ps) + frame_bytes_of(p));
    }
}

/// A buffer that carries `frame_bytes_of(m)` at `pos` parses back to `m`
/// there.
pub proof fn lemma_frame_at(b: Seq<u8>, pos: int, m: PacketModel)
    requires
        m.wf(),
        0 <= pos,
        pos + FRAME_HEADER_SIZE + m.data.len() <= b.len(),
        b.subrange(pos, pos + FRAME_HEADER_SIZE + m.data.len()) == frame_bytes_of(m),
    ensures
        frame_ok_at(b, pos),
        frame_len_at(b, pos) == m.data.len(),
        packet_at(b, pos) == m,
{
    vstd::bytes::lemma_auto_spec_u32_to_from_le_bytes();
    let hd = frame_header_of(m);
    let fb = frame_bytes_of(m);
    let whole = b.subrange(pos, pos + FRAME_HEADER_SIZE + m.data.len());
    assert(fb.len() == 16 + m.data.len());
    assert(b.subrange(pos, pos + 4) =~= spec_u32_to_le_bytes(hd.timestamp_seconds)) by {
        assert forall|k: int| 0 <= k < 4 implies b.subrange(pos, pos + 4)[k]
            == spec_u32_to_le_bytes(hd.timestamp_seconds)[k] by {
            assert(whole[k] == b[pos + k]);
            assert(b.subrange(pos, pos + 4)[k] == b[pos + k]);
        }
    }
    assert(b.subrange(pos + 4, pos + 8) =~= spec_u32_to_le_bytes(hd.timestamp_nanoseconds)) by {
        assert forall|k: int| 0 <= k < 4 implies b.subrange(pos + 4, pos + 8)[k]
            == spec_u32_to_le_bytes(hd.timestamp_nanoseconds)[k] by {
            assert(whole[4 + k] == b[pos + (4 + k)]);
            assert(b.subrange(pos + 4, pos + 8)[k] == b[(pos + 4) + k]);
        }
    }
    assert(b.subrange(pos + 8, pos + 12) =~= spec_u32_to_le_bytes(hd.packet_length)) by {
        assert forall|k: int| 0 <= k < 4 implies b.subrange(pos + 8, pos + 12)[k]
            == spec_u32_to_le_bytes(hd.packet_length)[k] by {
            assert(whole[8 + k] == b[pos + (8 + k)]);
            assert(b.subrange(pos + 8, pos + 12)[k] == b[(pos + 8) + k]);
        }
    }
    assert(b.subrange(pos + 12, pos + 16) =~= spec_u32_to_le_bytes(hd.checksum)) by {
        assert forall|k: int| 0 <= k < 4 implies b.subrange(pos + 12, pos + 16)[k]
            == spec_u32_to_le_bytes(hd.checksum)[k] by {
            assert(whole[12 + k] == b[pos + (12 + k)]);
            assert(b.subrange(pos + 12, pos + 16)[k] == b[(pos + 12) + k]);
        }
    }
    assert(le32_at(b, pos) == hd.timestamp_seconds);
    assert(le32_at(b, pos + 4) == hd.timestamp_nanoseconds);
    assert(le32_at(b, pos + 8) == hd.packet_length);
    assert(le32_at(b, pos + 12) == hd.checksum);
    assert(m.nanoseconds() < NANOS_PER_SECOND) by {
        vstd::arithmetic::div_mod::lemma_mod_division_less_than_divisor(
            m.timestamp_ns as int,
            NANOS_PER_SECOND as int,
        );
    }
    assert(b.subrange(pos + 16, pos + 16 + m.data.len()) =~= m.data) by {
        assert forall|k: int| 0 <= k < m.data.len() implies b.subrange(
            pos + 16,
            pos + 16 + m.data.len(),
        )[k] == m.data[k] by {
            assert(whole[16 + k] == b[pos + (16 + k)]);
            assert(b.subrange(pos + 16, pos + 16 + m.data.len())[k] == b[(pos + 16) + k]);
        }
    }
    assert(m.seconds() * NANOS_PER_SECOND + m.nanoseconds() == m.timestamp_ns) by {
        vstd::arithmetic::div_mod::lemma_fundamental_div_mod(
            m.timestamp_ns as int,
            NANOS_PER_SECOND as int,
        );
    }
    assert(packet_at(b, pos) == m);
}

/// A buffer whose tail from `pos` is exactly the frames of `ps` parses to
/// `ps` there.
pub proof fn lemma_parse_frames(b: Seq<u8>, pos: int, ps: Seq<PacketModel>)
    requires
        all_wf(ps),
        0 <= pos <= b.len(),
        b.subrange(pos, b.len() as int) == frames_bytes(ps),
    ensures
        frames_from(b, pos).len() == ps.len(),
        forall|i: int| 0 <= i < ps.len() ==> (#[trigger] frames_from(b, pos)[i]).packet == ps[i],
        ps.len() > 0 ==> frame_end(frames_from(b, pos).last()) == b.len(),
        ps.len() == 0 ==> b.len() == pos,
    decreases ps.len(),
{
    vstd::bytes::lemma_auto_spec_u32_to_from_le_bytes();
    if ps.len() == 0 {
        assert(frames_bytes(ps) == Seq::<u8>::empty());
        assert(b.subrange(pos, b.len() as int).len() == b.len() - pos);
        assert(b.len() - pos == 0);
    } else {
        let m = ps[0];
        assert(m.wf());
        let flen = FRAME_HEADER_SIZE + m.data.len();
        assert(frames_bytes(ps) == frame_bytes_of(m) + frames_bytes(ps.drop_first()));
        assert(frame_bytes_of(m).len() == flen);
        let whole = b.subrange(pos, b.len() as int);
        assert(pos + flen <= b.len()) by {
            assert(whole.len() == frames_bytes(ps).len());
        }
        assert(b.subrange(pos, pos + flen) =~= frame_bytes_of(m)) by {
            assert forall|k: int| 0 <= k < flen implies b.subrange(pos, pos + flen)[k]
                == frame_bytes_of(m)[k] by {
                assert(whole[k] == b[pos + k]);
                assert(b.subrange(pos, pos + flen)[k] == b[pos + k]);
            }
        }
        lemma_frame_at(b, pos, m);
        assert(b.subrange(pos + flen, b.len() as int) =~= frames_bytes(ps.drop_first())) by {
            assert forall|k: int| 0 <= k < b.len() - pos - flen implies b.subrange(
                pos + flen,
                b.len() as int,
            )[k] == frames_bytes(ps.drop_first())[k] by {
                assert(whole[flen + k] == b[pos + (flen + k)]);
                assert(b.subrange(pos + flen, b.len() as int)[k] == b[(pos + flen) + k]);
            }
        }
        assert(all_wf(ps.drop_first())) by {
            assert forall|i: int|
                0 <= i < ps.drop_first().len() implies (#[trigger] ps.drop_first()[i]).wf() by {
                assert(ps[i + 1].wf());
            }
        }
        lemma_parse_frames(b, pos + flen, ps.drop_first());
        assert(frames_from(b, pos) == seq![
            FrameModel { off: pos, packet: packet_at(b, pos) },
        ] + frames_from(b, pos + flen));
        assert forall|i: int| 0 <= i < ps.len() implies (#[trigger] frames_from(b, pos)[i]).packet
            == ps[i] by {
            if i > 0 {
                assert(frames_from(b, pos)[i] == frames_from(b, pos + flen)[i - 1]);
                assert(ps.drop_first()[i - 1] == ps[i]);
            }
        }
        if ps.len() == 1 {
            assert(frames_from(b, pos).last() == frames_from(b, pos)[0]);
            assert(frame_end(frames_from(b, pos)[0]) == pos + flen);
            assert(b.len() == pos + flen);
        } else {
            assert(frames_from(b, pos).last() == frames_from(b, pos + flen).last());
        }
    }
}

/// A nonempty parse starts at `pos` itself, and the rest of it parses
/// just past the first frame.
pub proof fn lemma_frames_step(b: Seq<u8>, pos: int)
    requires
        0 <= pos <= b.len(),
        frames_from(b, pos).len() > 0,
    ensures
        frame_ok_at(b, pos),
        frames_from(b, pos)[0].off == pos,
        frames_from(b, pos)[0].packet == packet_at(b, pos),
        frames_from(b, pos + FRAME_HEADER_SIZE + frame_len_at(b, pos)) == frames_from(
            b,
            pos,
        ).drop_first(),
{
    assert(frames_from(b, pos) == seq![FrameModel { off: pos, packet: packet_at(b, pos) }]
        + frames_from(b, pos + FRAME_HEADER_SIZE + frame_len_at(b, pos)));
    assert(frames_from(b, pos + FRAME_HEADER_SIZE + frame_len_at(b, pos)) =~= frames_from(
        b,
        pos,
    ).drop_first());
}

/// Every frame that parses out of a buffer is well placed: it sits inside
/// the buffer, parses there, and carries a well-formed packet.
pub proof fn lemma_frames_from_wf(b: Seq<u8>, pos: int)
    requires
        0 <= pos <= b.len(),
    ensures
        forall|i: int|
            0 <= i < frames_from(b, pos).len() ==> {
                let f = #[trigger] frames_from(b, pos)[i];
                &&& pos <= f.off
                &&& frame_end(f) <= b.len()
                &&& frame_ok_at(b, f.off)
                &&& f.packet == packet_at(b, f.off)
                &&& f.packet.wf()
                &&& f.packet.data.len() == frame_len_at(b, f.off)
            },
    decreases b.len() - pos,
{
    if frame_ok_at(b, pos) {
        let flen = FRAME_HEADER_SIZE + frame_len_at(b, pos);
        lemma_frames_from_wf(b, pos + flen);
        assert(packet_at(b, pos).wf()) by {
            let sec = le32_at(b, pos) as int;
            assert(sec * (NANOS_PER_SECOND as int) <= 0xFFFFFFFF * (NANOS_PER_SECOND as int))
                by (nonlinear_arith)
                requires
                    sec <= 0xFFFFFFFF,
            ;
        }
        assert forall|i: int| 0 <= i < frames_from(b, pos).len() implies {
            let f = #[trigger] frames_from(b, pos)[i];
            &&& pos <= f.off
            &&& frame_end(f) <= b.len()
            &&& frame_ok_at(b, f.off)
            &&& f.packet == packet_at(b, f.off)
            &&& f.packet.wf()
            &&& f.packet.data.len() == frame_len_at(b, f.off)
        } by {
            if i > 0 {
                assert(frames_from(b, pos)[i] == frames_from(b, pos + flen)[i - 1]);
            }
        }
    }
}

/// From the `j`-th frame's offset onward the same frames parse again: the
/// list from there is the suffix from `j`, and past its end, from `j + 1`.
pub proof fn lemma_frames_suffix(b: Seq<u8>, pos: int, j: int)
    requires
        0 <= pos <= b.len(),
        0 <= j < frames_from(b, pos).len(),
    ensures
        frames_from(b, frames_from(b, pos)[j].off) == frames_from(b, pos).skip(j),
        frames_from(b, frame_end(frames_from(b, pos)[j])) == frames_from(b, pos).skip(j + 1),
    decreases j,
{
    let fs = frames_from(b, pos);
    lemma_frames_from_wf(b, pos);
    if j == 0 {
        assert(fs[0].off == pos);
        assert(fs.skip(0) =~= fs);
        let flen = FRAME_HEADER_SIZE + frame_len_at(b, pos);
        assert(fs == seq![FrameModel { off: pos, packet: packet_at(b, pos) }] + frames_from(
            b,
            pos + flen,
        ));
        assert(frames_from(b, pos + flen) =~= fs.skip(1));
        assert(frame_end(fs[0]) == pos + flen);
    } else {
        lemma_frames_suffix(b, pos, j - 1);
        let o = frame_end(fs[j - 1]);
        assert(frames_from(b, o) == fs.skip(j));
        assert(fs.skip(j)[0] == fs[j]);
        assert(frames_from(b, o).len() > 0);
        assert(frame_ok_at(b, o));
        assert(0 <= o <= b.len());
        let flen = FRAME_HEADER_SIZE + frame_len_at(b, o);
        assert(frames_from(b, o) == seq![FrameModel { off: o, packet: packet_at(b, o) }]
            + frames_from(b, o + flen));
        assert(fs[j].off == o);
        assert(frames_from(b, o + flen) =~= fs.skip(j).drop_first());
        assert(fs.skip(j).drop_first() =~= fs.skip(j + 1));
        assert(frame_end(fs[j]) == o + flen);
    }
}

/// A container image parses back to the packets it was built from.
pub proof fn lemma_container_round_trip(h: PcapFileHeader, ps: Seq<PacketModel>)
    requires
        h.valid(),
        all_wf(ps),
    ensures
        header_valid(container_bytes(h, ps)),
        frames_from(container_bytes(h, ps), FILE_HEADER_SIZE as int).len() == ps.len(),
        forall|i: int|
            0 <= i < ps.len() ==> (#[trigger] frames_from(
                container_bytes(h, ps),
                FILE_HEADER_SIZE as int,
            )[i]).packet == ps[i],
        container_packets(container_bytes(h, ps)) == ps,
        ps.len() > 0 ==> frame_end(
            frames_from(container_bytes(h, ps), FILE_HEADER_SIZE as int).last(),
        ) == container_bytes(h, ps).len(),
        ps.len() == 0 ==> container_bytes(h, ps).len() == FILE_HEADER_SIZE,
{
    vstd::bytes::lemma_auto_spec_u32_to_from_le_bytes();
    vstd::bytes::lemma_auto_spec_u16_to_from_le_bytes();
    let b = container_bytes(h, ps);
    let hb = header_bytes_of(h);
    assert(hb.len() == 24);
    assert forall|i: int| 0 <= i < 24 implies b[i] == hb[i] by {}
    assert(b.subrange(0, 4) =~= spec_u32_to_le_bytes(h.magic));
    assert(b.subrange(4, 6) =~= spec_u16_to_le_bytes(h.major));
    assert(b.subrange(6, 8) =~= spec_u16_to_le_bytes(h.minor));
    assert(le32_at(b, 0) == h.magic);
    assert(le16_at(b, 4) == h.major);
    assert(le16_at(b, 6) == h.minor);
    assert(header_valid(b));
    assert(b.subrange(24, b.len() as int) =~= frames_bytes(ps));
    lemma_parse_frames(b, 24, ps);
    assert(container_packets(b) =~= ps);
}

} // verus!
