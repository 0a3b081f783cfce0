//! The binary packet codec. Four packet kinds share a two-bit type
//! discriminant in the top bits of the first byte; Control and Ack packets
//! can be protected by whole-frame Reed-Solomon parity, while Data packets
//! protect their three-byte header and each payload block separately.

use vstd::prelude::*;

use crate::buffers::{copy_range, push_range, ByteReader};
use crate::fec::{lemma_encoded_is_codeword, rs_correct, rs_encode, rs_parity};

verus! {

/// Periodic beacon identifying a Link and its capabilities.
#[derive(Debug, Clone, PartialEq)]
pub struct BroadcastPacket {
    pub fec_enabled: bool,
    pub retry_enabled: bool,
    pub major_ver: u8,
    pub minor_ver: u8,
    pub link_width: u16,
    pub callsign: Vec<u8>,
}

/// Session control commands.
#[derive(Debug, Clone, Copy, PartialEq, Eq, Structural)]
pub enum ControlType {
    Reserved,
    LinkRequest,
    LinkOpened,
    LinkClose,
    LinkClear,
    NodeWaiting,
    Notification,
}

/// A session control packet: a command and the two callsigns it concerns.
#[derive(Debug, Clone, PartialEq)]
pub struct ControlPacket {
    pub ctrl_type: ControlType,
    pub source_callsign: Vec<u8>,
    pub dest_callsign: Vec<u8>,
}

/// Header of one payload fragment. The index is fourteen bits wide; the
/// fec_bytes parameter k yields 2(k+1) parity bytes per payload block.
#[derive(Debug, Clone, Copy, PartialEq, Eq, Structural)]
pub struct DataPacket {
    pub packet_idx: u16,
    pub fec_bytes: u8,
    pub start_flag: bool,
    pub end_flag: bool,
}

/// Acknowledgement of one Data packet, possibly negative, possibly carrying
/// the response handshake flags.
#[derive(Debug, Clone, Copy, PartialEq, Eq, Structural)]
pub struct AckPacket {
    pub packet_idx: u16,
    pub nack: bool,
    pub response: bool,
    pub pending_response: bool,
    pub corrected_errors: u16,
}

/// A packet on the wire; Data carries its payload bytes beside the header.
#[derive(Debug, Clone, PartialEq)]
pub enum Packet {
    Broadcast(BroadcastPacket),
    Control(ControlPacket),
    Data(DataPacket, Vec<u8>),
    Ack(AckPacket),
}

/// Why a packet could not be decoded.
#[derive(Debug, Clone, Copy, PartialEq, Eq, Structural)]
pub enum PacketDecodeError {
    TooManyFECErrors,
    BadFormat,
}

/// Why payload blocks could not be decoded.
#[derive(Debug, Clone, Copy, PartialEq, Eq, Structural)]
pub enum DataDecodeError {
    TooManyFECErrors,
}

/// Why a packet could not be encoded.
#[derive(Debug, Clone, Copy, PartialEq, Eq, Structural)]
pub enum PacketEncodeError {
    BadFormat,
}

/// Parity bytes appended to the three-byte Data header, and to the first
/// three bytes of a whole-frame-coded packet.
pub const FEC_CRC_BYTES: usize = 6;

/// Size of one Reed-Solomon payload block.
pub const BLOCK_SIZE: usize = 255;

/// A sixteen-bit value from two big-endian bytes.
pub open spec fn spec_u16_from(hi: u8, lo: u8) -> u16 {
    (hi * 256 + lo) as u16
}

/// Wire number of a control command.
pub open spec fn spec_ctrl_num(t: ControlType) -> u8 {
    match t {
        ControlType::Reserved => 0,
        ControlType::LinkRequest => 1,
        ControlType::LinkOpened => 2,
        ControlType::LinkClose => 3,
        ControlType::LinkClear => 4,
        ControlType::NodeWaiting => 5,
        ControlType::Notification => 6,
    }
}

/// Flag bits of an Ack packet, all in the top three bits.
pub open spec fn spec_ack_flags(a: AckPacket) -> u8 {
    ((if a.response {
        128int
    } else {
        0int
    }) + (if a.nack {
        64int
    } else {
        0int
    }) + (if a.pending_response {
        32int
    } else {
        0int
    })) as u8
}

/// Flag byte of a Data header: start and end flags above the six-bit k.
pub open spec fn spec_data_flags(h: DataPacket) -> u8 {
    ((if h.start_flag {
        128int
    } else {
        0int
    }) + (if h.end_flag {
        64int
    } else {
        0int
    }) + (h.fec_bytes % 64)) as u8
}

/// The three-byte Data header: type bits 01 over the fourteen-bit index, then
/// the flag byte.
pub open spec fn spec_data_header(h: DataPacket) -> Seq<u8> {
    let idx = h.packet_idx % 16384;
    seq![(64 + idx / 256) as u8, (idx % 256) as u8, spec_data_flags(h)]
}

/// The plain bytes of a packet, its Data payload excluded.
pub open spec fn spec_inner_bytes(p: Packet) -> Seq<u8> {
    match p {
        Packet::Ack(a) => {
            let idx = a.packet_idx % 16384;
            let ce = a.corrected_errors % 4096;
            seq![
                (128 + idx / 256) as u8,
                (idx % 256) as u8,
                (spec_ack_flags(a) + ce / 256) as u8,
                (ce % 256) as u8,
            ]
        },
        Packet::Broadcast(b) => seq![
            ((if b.fec_enabled {
                32int
            } else {
                0int
            }) + (if b.retry_enabled {
                16int
            } else {
                0int
            })) as u8,
            b.major_ver,
            b.minor_ver,
            (b.link_width / 256) as u8,
            (b.link_width % 256) as u8,
        ] + b.callsign@,
        Packet::Control(c) => seq![(192 + spec_ctrl_num(c.ctrl_type)) as u8] + c.source_callsign@
            + seq![0u8] + c.dest_callsign@,
        Packet::Data(h, _payload) => spec_data_header(h),
    }
}

/// A packet encoded without forward error correction.
pub open spec fn spec_encode_plain(p: Packet) -> Seq<u8> {
    match p {
        Packet::Data(h, payload) => spec_data_header(h) + payload@,
        _ => spec_inner_bytes(p),
    }
}

/// A non-Data packet encoded with whole-frame parity: the plain bytes, parity
/// of twice their length, then six parity bytes over the first three plain
/// bytes, so the type can be told apart before the whole frame is decoded.
pub open spec fn spec_encode_fec(p: Packet) -> Seq<u8> {
    let inner = spec_inner_bytes(p);
    inner + rs_parity(inner, 2 * (inner.len() as int)) + rs_parity(inner.take(3), FEC_CRC_BYTES as int)
}

/// A packet encoded as `encode` emits it.
pub open spec fn spec_encoded(p: Packet, fec: bool) -> Seq<u8> {
    if fec {
        spec_encode_fec(p)
    } else {
        spec_encode_plain(p)
    }
}

/// Bytes of a coded Data frame: the plain header, the already-coded payload
/// blocks, then six parity bytes over the header.
pub open spec fn spec_data_frame_bytes(h: DataPacket, blocks: Seq<u8>) -> Seq<u8> {
    spec_data_header(h) + blocks + rs_parity(spec_data_header(h), FEC_CRC_BYTES as int)
}

/// Data header fields within their wire ranges.
pub open spec fn spec_valid_header(h: DataPacket) -> bool {
    h.packet_idx < 16384 && h.fec_bytes < 64
}

/// Field values within their wire ranges, and callsigns that survive the
/// trip: a Control source callsign is NUL-terminated on the wire, so it
/// cannot hold a NUL itself, and the callsign block spans at least two bytes;
/// a Broadcast callsign is at least one byte.
pub open spec fn spec_valid_packet(p: Packet) -> bool {
    match p {
        Packet::Ack(a) => a.packet_idx < 16384 && a.corrected_errors < 4096,
        Packet::Broadcast(b) => b.callsign@.len() >= 1,
        Packet::Control(c) => !c.source_callsign@.contains(0u8) && c.source_callsign@.len()
            + c.dest_callsign@.len() >= 2,
        Packet::Data(h, _payload) => spec_valid_header(h),
    }
}

/// A non-Data packet small enough for whole-frame coding: three times the
/// plain length must fit one 255-byte Reed-Solomon block.
pub open spec fn spec_fec_encodable(p: Packet) -> bool {
    !(p matches Packet::Data(_, _)) && 3 <= spec_inner_bytes(p).len() <= 85
}

/// The packets hold equal values: equal fields and equal byte contents.
pub open spec fn spec_packet_eq(a: Packet, b: Packet) -> bool {
    match (a, b) {
        (Packet::Broadcast(x), Packet::Broadcast(y)) => x.fec_enabled == y.fec_enabled
            && x.retry_enabled == y.retry_enabled && x.major_ver == y.major_ver && x.minor_ver
            == y.minor_ver && x.link_width == y.link_width && x.callsign@ == y.callsign@,
        (Packet::Control(x), Packet::Control(y)) => x.ctrl_type == y.ctrl_type
            && x.source_callsign@ == y.source_callsign@ && x.dest_callsign@ == y.dest_callsign@,
        (Packet::Data(x, px), Packet::Data(y, py)) => x == y && px@ == py@,
        (Packet::Ack(x), Packet::Ack(y)) => x == y,
        _ => false,
    }
}

/// The Data header that three decoded bytes denote.
pub open spec fn spec_parse_data(b0: u8, b1: u8, b2: u8) -> DataPacket {
    DataPacket {
        packet_idx: spec_u16_from((b0 % 64) as u8, b1),
        fec_bytes: (b2 % 64) as u8,
        start_flag: b2 / 128 == 1,
        end_flag: (b2 / 64) % 2 == 1,
    }
}

/// The Ack that four decoded bytes denote.
pub open spec fn spec_parse_ack(b0: u8, b1: u8, b2: u8, b3: u8) -> AckPacket {
    AckPacket {
        packet_idx: spec_u16_from((b0 % 64) as u8, b1),
        nack: (b2 / 64) % 2 == 1,
        response: b2 / 128 == 1,
        pending_response: (b2 / 32) % 2 == 1,
        corrected_errors: spec_u16_from((b2 % 16) as u8, b3),
    }
}

/// First index at or after `i` holding a NUL byte.
pub open spec fn spec_find_nul(s: Seq<u8>, i: int) -> Option<int>
    decreases s.len() - i,
{
    if i < 0 || i >= s.len() {
        None
    } else if s[i] == 0 {
        Some(i)
    } else {
        spec_find_nul(s, i + 1)
    }
}

/// Whether plain bytes parse as a packet at all.
pub open spec fn spec_plain_decode_ok(data: Seq<u8>) -> bool {
    data.len() >= 1 && {
        let t = data[0] / 64;
        if t == 0 {
            data.len() >= 6
        } else if t == 1 {
            data.len() >= 3
        } else if t == 2 {
            data.len() == 4
        } else {
            data.len() >= 4 && (data[0] % 8) <= 6 && spec_find_nul(data, 1) is Some
        }
    }
}

/// What plain bytes decode to. Relational: the packet's owned buffers hold
/// exactly the denoted byte ranges.
pub open spec fn spec_plain_decodes_to(data: Seq<u8>, p: Packet) -> bool {
    spec_plain_decode_ok(data) && {
        let t = data[0] / 64;
        if t == 0 {
            p matches Packet::Broadcast(b) && b.fec_enabled == ((data[0] / 32) % 2 == 1)
                && b.retry_enabled == ((data[0] / 16) % 2 == 1) && b.major_ver == data[1]
                && b.minor_ver == data[2] && b.link_width == spec_u16_from(data[3], data[4])
                && b.callsign@ == data.skip(5)
        } else if t == 1 {
            p matches Packet::Data(h, payload) && h == spec_parse_data(data[0], data[1], data[2])
                && payload@ == data.skip(3)
        } else if t == 2 {
            p matches Packet::Ack(a) && a == spec_parse_ack(data[0], data[1], data[2], data[3])
        } else {
            p matches Packet::Control(c) && spec_ctrl_num(c.ctrl_type) == (data[0] % 8) && {
                let nul = spec_find_nul(data, 1).unwrap();
                c.source_callsign@ == data.subrange(1, nul) && c.dest_callsign@ == data.skip(
                    nul + 1,
                )
            }
        }
    }
}

/// Parity length that the fec_bytes parameter k denotes.
pub open spec fn spec_fec_bytes(fec_count: u8) -> int {
    (fec_count + 1) * 2
}

/// Parity length that the fec_bytes parameter k denotes: 2(k+1).
pub fn get_fec_bytes(fec_count: u8) -> (r: usize)
    ensures
        r == spec_fec_bytes(fec_count),
{
    (fec_count as usize + 1) * 2
}

/// Payload capacity of one Data packet.
pub open spec fn spec_data_capacity(fec: Option<u8>, link_width: int) -> int {
    match fec {
        Some(k) => link_width - 3 - FEC_CRC_BYTES - spec_fec_bytes(k),
        None => link_width - 3,
    }
}

/// Payload capacity of one Data packet: the link width less the header, and
/// less the parity overhead when coding is on.
pub fn data_bytes_per_packet(fec: Option<u8>, link_width: usize) -> (r: usize)
    requires
        spec_data_capacity(fec, link_width as int) >= 0,
    ensures
        r == spec_data_capacity(fec, link_width as int),
{
    match fec {
        Some(fec_bytes) => link_width - 3 - FEC_CRC_BYTES - get_fec_bytes(fec_bytes),
        None => link_width - 3,
    }
}

/// Appends the plain bytes of a packet, the Data payload excluded.
fn encode_inner(packet: &Packet, writer: &mut Vec<u8>) -> (written: usize)
    ensures
        final(writer)@ == old(writer)@ + spec_inner_bytes(*packet),
        written == spec_inner_bytes(*packet).len(),
{
    let start_len: usize = writer.len();
    match packet {
        Packet::Ack(a) => {
            let idx: u16 = a.packet_idx % 16384;
            let ce: u16 = a.corrected_errors % 4096;
            let flags: u16 = (if a.response {
                128
            } else {
                0
            }) + (if a.nack {
                64
            } else {
                0
            }) + (if a.pending_response {
                32
            } else {
                0
            });
            writer.push((128 + idx / 256) as u8);
            writer.push((idx % 256) as u8);
            writer.push((flags + ce / 256) as u8);
            writer.push((ce % 256) as u8);
            proof {
                assert(writer@ =~= old(writer)@ + spec_inner_bytes(*packet));
            }
        },
        Packet::Broadcast(b) => {
            let packet_type: u8 = (if b.fec_enabled {
                32
            } else {
                0
            }) + (if b.retry_enabled {
                16
            } else {
                0
            });
            writer.push(packet_type);
            writer.push(b.major_ver);
            writer.push(b.minor_ver);
            writer.push((b.link_width / 256) as u8);
            writer.push((b.link_width % 256) as u8);
            push_range(writer, b.callsign.as_slice(), 0, b.callsign.len());
            proof {
                assert(b.callsign@.subrange(0, b.callsign@.len() as int) =~= b.callsign@);
                assert(writer@ =~= old(writer)@ + spec_inner_bytes(*packet));
            }
        },
        Packet::Control(c) => {
            let num: u8 = match c.ctrl_type {
                ControlType::Reserved => 0,
                ControlType::LinkRequest => 1,
                ControlType::LinkOpened => 2,
                ControlType::LinkClose => 3,
                ControlType::LinkClear => 4,
                ControlType::NodeWaiting => 5,
                ControlType::Notification => 6,
            };
            writer.push(192 + num);
            push_range(writer, c.source_callsign.as_slice(), 0, c.source_callsign.len());
            writer.push(0u8);
            push_range(writer, c.dest_callsign.as_slice(), 0, c.dest_callsign.len());
            proof {
                assert(c.source_callsign@.subrange(0, c.source_callsign@.len() as int)
                    =~= c.source_callsign@);
                assert(c.dest_callsign@.subrange(0, c.dest_callsign@.len() as int)
                    =~= c.dest_callsign@);
                assert(writer@ =~= old(writer)@ + spec_inner_bytes(*packet));
            }
        },
        Packet::Data(h, _payload) => {
            let idx: u16 = h.packet_idx % 16384;
            let flags: u8 = (if h.start_flag {
                128
            } else {
                0
            }) + (if h.end_flag {
                64
            } else {
                0
            }) + (h.fec_bytes % 64);
            writer.push((64 + idx / 256) as u8);
            writer.push((idx % 256) as u8);
            writer.push(flags);
            proof {
                assert(writer@ =~= old(writer)@ + spec_inner_bytes(*packet));
            }
        },
    }
    writer.len() - start_len
}

/// Encodes a packet, protecting the whole frame with parity when
/// `fec_enabled` is set. A Data packet goes through `encode_data` when coded,
/// and a coded frame must fit one Reed-Solomon block.
pub fn encode(packet: &Packet, fec_enabled: bool, writer: &mut Vec<u8>) -> (r: Result<
    usize,
    PacketEncodeError,
>)
    requires
        fec_enabled ==> spec_fec_encodable(*packet),
    ensures
        r matches Ok(written) && written == spec_encoded(*packet, fec_enabled).len(),
        final(writer)@ == old(writer)@ + spec_encoded(*packet, fec_enabled),
{
    if !fec_enabled {
        let start_len: usize = writer.len();
        let written = encode_inner(packet, writer);
        match packet {
            Packet::Data(_h, payload) => {
                push_range(writer, payload.as_slice(), 0, payload.len());
                proof {
                    assert(payload@.subrange(0, payload@.len() as int) =~= payload@);
                    assert(writer@ =~= old(writer)@ + spec_encoded(*packet, fec_enabled));
                }
                Ok(writer.len() - start_len)
            },
            _ => {
                proof {
                    assert(writer@ =~= old(writer)@ + spec_encoded(*packet, fec_enabled));
                }
                Ok(written)
            },
        }
    } else {
        let mut inner: Vec<u8> = Vec::new();
        encode_inner(packet, &mut inner);
        let n = inner.len();
        let code = rs_encode(inner.as_slice(), 2 * n);
        push_range(writer, code.as_slice(), 0, code.len());
        let head = copy_range(inner.as_slice(), 0, 3);
        let crc = rs_encode(head.as_slice(), FEC_CRC_BYTES);
        push_range(writer, crc.as_slice(), 3, 3 + FEC_CRC_BYTES);
        proof {
            assert(head@ =~= spec_inner_bytes(*packet).take(3));
            assert(code@.subrange(0, code@.len() as int) =~= code@);
            assert(crc@.subrange(3, 3 + FEC_CRC_BYTES as int) =~= rs_parity(
                spec_inner_bytes(*packet).take(3),
                FEC_CRC_BYTES as int,
            ));
            assert(writer@ =~= old(writer)@ + spec_encode_fec(*packet));
        }
        Ok(code.len() + FEC_CRC_BYTES)
    }
}

/// Parses the three decoded header bytes of a Data packet.
fn parse_data_header(b0: u8, b1: u8, b2: u8) -> (h: DataPacket)
    ensures
        h == spec_parse_data(b0, b1, b2),
{
    DataPacket {
        packet_idx: ((b0 % 64) as u16) * 256 + (b1 as u16),
        fec_bytes: b2 % 64,
        start_flag: b2 / 128 == 1,
        end_flag: (b2 / 64) % 2 == 1,
    }
}

/// Decodes already-corrected plain bytes into a packet.
fn decode_corrected(data: &[u8]) -> (r: Result<Packet, PacketDecodeError>)
    ensures
        r matches Ok(p) ==> spec_plain_decodes_to(data@, p),
        r matches Ok(p) ==> (p matches Packet::Data(h, _) ==> spec_valid_header(h)),
        r is Ok <==> spec_plain_decode_ok(data@),
        r matches Err(e) ==> e == PacketDecodeError::BadFormat,
{
    if data.len() == 0 {
        return Err(PacketDecodeError::BadFormat);
    }
    let t = data[0] / 64;
    if t == 0 {
        // Broadcast
        if data.len() < 6 {
            return Err(PacketDecodeError::BadFormat);
        }
        let callsign = copy_range(data, 5, data.len());
        proof {
            assert(callsign@ =~= data@.skip(5));
        }
        Ok(
            Packet::Broadcast(
                BroadcastPacket {
                    fec_enabled: (data[0] / 32) % 2 == 1,
                    retry_enabled: (data[0] / 16) % 2 == 1,
                    major_ver: data[1],
                    minor_ver: data[2],
                    link_width: (data[3] as u16) * 256 + (data[4] as u16),
                    callsign,
                },
            ),
        )
    } else if t == 1 {
        // Data
        if data.len() < 3 {
            return Err(PacketDecodeError::BadFormat);
        }
        let payload = copy_range(data, 3, data.len());
        proof {
            assert(payload@ =~= data@.skip(3));
        }
        Ok(Packet::Data(parse_data_header(data[0], data[1], data[2]), payload))
    } else if t == 2 {
        // Ack
        if data.len() != 4 {
            return Err(PacketDecodeError::BadFormat);
        }
        Ok(
            Packet::Ack(
                AckPacket {
                    packet_idx: ((data[0] % 64) as u16) * 256 + (data[1] as u16),
                    nack: (data[2] / 64) % 2 == 1,
                    response: data[2] / 128 == 1,
                    pending_response: (data[2] / 32) % 2 == 1,
                    corrected_errors: ((data[2] % 16) as u16) * 256 + (data[3] as u16),
                },
            ),
        )
    } else {
        // Control
        if data.len() < 4 {
            return Err(PacketDecodeError::BadFormat);
        }
        let ctrl_type = match data[0] % 8 {
            0 => ControlType::Reserved,
            1 => ControlType::LinkRequest,
            2 => ControlType::LinkOpened,
            3 => ControlType::LinkClose,
            4 => ControlType::LinkClear,
            5 => ControlType::NodeWaiting,
            6 => ControlType::Notification,
            _ => {
                return Err(PacketDecodeError::BadFormat);
            },
        };
        // The callsigns are separated by the first NUL.
        let mut nul: usize = 1;
        while nul < data.len() && data[nul] != 0
            invariant
                1 <= nul <= data@.len(),
            spec_find_nul(data@, 1) == spec_find_nul(data@, nul as int),
            decreases data@.len() - nul,
        {
            nul = nul + 1;
        }
        if nul == data.len() {
            return Err(PacketDecodeError::BadFormat);
        }
        let source_callsign = copy_range(data, 1, nul);
        let dest_callsign = copy_range(data, nul + 1, data.len());
        proof {
            assert(source_callsign@ =~= data@.subrange(1, nul as int));
            assert(dest_callsign@ =~= data@.skip(nul + 1));
        }
        Ok(Packet::Control(ControlPacket { ctrl_type, source_callsign, dest_callsign }))
    }
}

/// First byte of a packet's plain bytes carries its type in the top two bits.
proof fn lemma_inner_type_bits(p: Packet)
    ensures
        spec_inner_bytes(p).len() >= (match p {
            Packet::Ack(_) => 4int,
            Packet::Broadcast(_) => 5int,
            Packet::Control(_) => 2int,
            Packet::Data(_, _) => 3int,
        }),
        spec_inner_bytes(p)[0] / 64 == (match p {
            Packet::Broadcast(_) => 0int,
            Packet::Data(_, _) => 1int,
            Packet::Ack(_) => 2int,
            Packet::Control(_) => 3int,
        }),
{
    match p {
        Packet::Ack(a) => {
            let idx = a.packet_idx % 16384;
            assert(idx / 256 < 64);
            assert(spec_inner_bytes(p)[0] == (128 + idx / 256) as u8);
        },
        Packet::Broadcast(b) => {
            assert(spec_inner_bytes(p)[0] / 64 == 0);
        },
        Packet::Control(c) => {
            assert(spec_inner_bytes(p)[0] == (192 + spec_ctrl_num(c.ctrl_type)) as u8);
        },
        Packet::Data(h, _) => {
            let idx = h.packet_idx % 16384;
            assert(idx / 256 < 64);
            assert(spec_inner_bytes(p)[0] == (64 + idx / 256) as u8);
        },
    }
}

/// A valid Data header comes back from its own bytes.
proof fn lemma_data_header_round_trip(h: DataPacket)
    requires
        spec_valid_header(h),
    ensures
        spec_parse_data(
            spec_data_header(h)[0],
            spec_data_header(h)[1],
            spec_data_header(h)[2],
        ) == h,
{
    let idx = h.packet_idx % 16384;
    vstd::arithmetic::div_mod::lemma_fundamental_div_mod(idx as int, 256);
    assert(idx / 256 < 64);
    assert((64 + idx / 256) as u8 % 64 == idx / 256);
    let flags = spec_data_flags(h);
    assert(h.fec_bytes % 64 == h.fec_bytes);
    assert(flags % 64 == h.fec_bytes && (flags / 128 == 1) == h.start_flag && ((flags / 64) % 2
        == 1) == h.end_flag);
}

/// Decoding undoes plain encoding: a valid packet's bytes parse, and anything
/// they parse to holds the packet's values.
pub proof fn lemma_plain_round_trip(p: Packet)
    requires
        spec_valid_packet(p),
    ensures
        spec_plain_decode_ok(spec_encode_plain(p)),
        forall|q: Packet|
            #[trigger] spec_plain_decodes_to(spec_encode_plain(p), q) ==> spec_packet_eq(p, q),
{
    let enc = spec_encode_plain(p);
    lemma_inner_type_bits(p);
    match p {
        Packet::Ack(a) => {
            assert(enc == spec_inner_bytes(p));
            assert(enc.len() == 4);
            let idx = a.packet_idx % 16384;
            let ce = a.corrected_errors % 4096;
            vstd::arithmetic::div_mod::lemma_fundamental_div_mod(idx as int, 256);
            vstd::arithmetic::div_mod::lemma_fundamental_div_mod(ce as int, 256);
            assert(idx == a.packet_idx && ce == a.corrected_errors);
            assert(enc[0] / 64 == 2);
            let flags = spec_ack_flags(a);
            let b2 = (flags + ce / 256) as u8;
            assert(ce / 256 < 16);
            assert(b2 % 16 == ce / 256 && (b2 / 128 == 1) == a.response && ((b2 / 64) % 2 == 1)
                == a.nack && ((b2 / 32) % 2 == 1) == a.pending_response);
            assert((enc[0] % 64) == idx / 256);
            assert(spec_parse_ack(enc[0], enc[1], enc[2], enc[3]) == a);
        },
        Packet::Broadcast(b) => {
            assert(enc == spec_inner_bytes(p));
            assert(enc.len() == 5 + b.callsign@.len());
            vstd::arithmetic::div_mod::lemma_fundamental_div_mod(b.link_width as int, 256);
            assert(enc[0] / 64 == 0);
            let b0 = enc[0];
            assert(((b0 / 32) % 2 == 1) == b.fec_enabled && ((b0 / 16) % 2 == 1)
                == b.retry_enabled);
            assert(b.link_width / 256 < 256);
            assert(spec_u16_from(enc[3], enc[4]) == b.link_width);
            assert(enc.skip(5) =~= b.callsign@);
        },
        Packet::Control(c) => {
            assert(enc == spec_inner_bytes(p));
            let s = c.source_callsign@;
            let d = c.dest_callsign@;
            assert(enc.len() == 2 + s.len() + d.len());
            assert(enc[0] / 64 == 3);
            assert(enc[0] % 8 == spec_ctrl_num(c.ctrl_type));
            let nul = 1 + s.len() as int;
            assert(enc[nul] == 0u8);
            assert forall|j: int| 1 <= j < nul implies enc[j] != 0u8 by {
                assert(enc[j] == s[j - 1]);
                assert(s.contains(s[j - 1]));
            }
            lemma_find_nul_at(enc, 1, nul);
            assert(enc.subrange(1, nul) =~= s);
            assert(enc.skip(nul + 1) =~= d);
        },
        Packet::Data(h, payload) => {
            assert(enc =~= spec_data_header(h) + payload@);
            assert(enc.len() >= 3);
            assert(enc[0] == spec_data_header(h)[0] && enc[1] == spec_data_header(h)[1] && enc[2]
                == spec_data_header(h)[2]);
            assert(enc[0] / 64 == 1);
            lemma_data_header_round_trip(h);
            assert(enc.skip(3) =~= payload@);
        },
    }
}

/// The first NUL at or after `i` is `k`, when everything between is not NUL.
proof fn lemma_find_nul_at(s: Seq<u8>, i: int, k: int)
    requires
        0 <= i <= k < s.len(),
        s[k] == 0u8,
        forall|j: int| i <= j < k ==> s[j] != 0u8,
    ensures
        spec_find_nul(s, i) == Some(k),
    decreases k - i,
{
    if i < k {
        lemma_find_nul_at(s, i + 1, k);
    }
}

/// Decodes the header of a possibly Data coded frame. Some means the frame's
/// corrected header has the Data type: the packet keeps its payload blocks
/// coded, for `decode_data_blocks`. None means the frame is not a well-formed
/// Data frame and should be tried as a whole-frame-coded packet.
fn try_decode_fec_data(data: &[u8]) -> (r: Option<(Packet, usize)>)
    requires
        data@.len() >= 9,
    ensures
        r matches Some(t) ==> t.1 <= 6,
        r matches Some(t) ==> (t.0 matches Packet::Data(h, _) ==> spec_valid_header(h)),
        r matches Some(t) ==> forall|hh: DataPacket, blocks: Seq<u8>|
            spec_valid_header(hh) && data@ == #[trigger] spec_data_frame_bytes(hh, blocks) ==> (t.0
                matches Packet::Data(h2, payload) && h2 == hh && payload@ == blocks && t.1 == 0),
        r is None ==> forall|hh: DataPacket, blocks: Seq<u8>|
            !(spec_valid_header(hh) && data@ == #[trigger] spec_data_frame_bytes(hh, blocks)),
        r matches Some(t) ==> forall|p: Packet|
            !(spec_valid_packet(p) && spec_fec_encodable(p) && data@ == #[trigger] spec_encode_fec(
                p,
            )),
{
    let mut header9 = copy_range(data, 0, 3);
    push_range(&mut header9, data, data.len() - FEC_CRC_BYTES, data.len());
    let corrected = rs_correct(header9.as_slice(), FEC_CRC_BYTES);
    match corrected {
        Some((hdr, errs)) => {
            if hdr[0] / 64 == 1 {
                let payload = copy_range(data, 3, data.len() - FEC_CRC_BYTES);
                let h = parse_data_header(hdr[0], hdr[1], hdr[2]);
                proof {
                    assert forall|hh: DataPacket, blocks: Seq<u8>|
                        spec_valid_header(hh) && data@ == #[trigger] spec_data_frame_bytes(
                            hh,
                            blocks,
                        ) implies (h == hh && payload@ == blocks && errs == 0) by {
                        lemma_under_data_hyp(data@, header9@, hh, blocks);
                        assert(hdr@ == header9@ && errs == 0);
                        lemma_data_header_round_trip(hh);
                        assert(payload@ =~= blocks);
                    }
                    assert forall|p: Packet|
                        spec_valid_packet(p) && spec_fec_encodable(p) && data@
                            == #[trigger] spec_encode_fec(p) implies false by {
                        lemma_under_fec_hyp(data@, header9@, p);
                        assert(hdr@ == header9@);
                        lemma_inner_type_bits(p);
                        assert(hdr@[0] == spec_inner_bytes(p)[0]);
                    }
                }
                Some((Packet::Data(h, payload), errs))
            } else {
                proof {
                    assert forall|hh: DataPacket, blocks: Seq<u8>|
                        spec_valid_header(hh) && data@ == #[trigger] spec_data_frame_bytes(
                            hh,
                            blocks,
                        ) implies false by {
                        lemma_under_data_hyp(data@, header9@, hh, blocks);
                        assert(hdr@ == header9@);
                        let idx = hh.packet_idx % 16384;
                        assert(idx / 256 < 64);
                        assert(spec_data_header(hh)[0] == (64 + idx / 256) as u8);
                        assert(hdr@[0] / 64 == 1);
                    }
                }
                None
            }
        },
        None => {
            proof {
                assert forall|hh: DataPacket, blocks: Seq<u8>|
                    spec_valid_header(hh) && data@ == #[trigger] spec_data_frame_bytes(
                        hh,
                        blocks,
                    ) implies false by {
                    lemma_under_data_hyp(data@, header9@, hh, blocks);
                }
            }
            None
        },
    }
}

/// The bytes are exactly the encoded frame of this non-Data packet under the
/// given coding, for a packet whose values survive the trip.
pub open spec fn spec_frame_of(data: Seq<u8>, p: Packet, fec: bool) -> bool {
    &&& spec_valid_packet(p)
    &&& !(p matches Packet::Data(_, _))
    &&& (fec ==> spec_fec_encodable(p))
    &&& data == spec_encoded(p, fec)
}

/// The bytes are exactly the encoded frame of a Data packet with this header
/// and this body: the coded payload blocks under coding, the raw payload
/// without.
pub open spec fn spec_data_frame_under(data: Seq<u8>, h: DataPacket, body: Seq<u8>, fec: bool) -> bool {
    &&& spec_valid_header(h)
    &&& if fec {
        data == spec_data_frame_bytes(h, body)
    } else {
        data == spec_data_header(h) + body
    }
}

/// Decoding undoes plain encoding of a Data frame: the bytes parse, and
/// whatever they parse to holds the header's values and the body.
pub proof fn lemma_plain_data_round_trip(h: DataPacket, body: Seq<u8>)
    requires
        spec_valid_header(h),
    ensures
        spec_plain_decode_ok(spec_data_header(h) + body),
        forall|q: Packet|
            #[trigger] spec_plain_decodes_to(spec_data_header(h) + body, q) ==> (q matches
                Packet::Data(h2, p2) && h2 == h && p2@ == body),
{
    let enc = spec_data_header(h) + body;
    let idx = h.packet_idx % 16384;
    assert(idx / 256 < 64);
    assert(enc[0] == (64 + idx / 256) as u8 && enc[1] == (idx % 256) as u8 && enc[2]
        == spec_data_flags(h));
    assert(enc[0] / 64 == 1);
    lemma_data_header_round_trip(h);
    assert(enc.skip(3) =~= body);
}

/// Control frames depend only on the command and the callsign bytes: two
/// control packets with equal views encode identically.
pub proof fn lemma_control_frame_by_views(a: ControlPacket, b: ControlPacket, fec: bool)
    requires
        a.ctrl_type == b.ctrl_type,
        a.source_callsign@ == b.source_callsign@,
        a.dest_callsign@ == b.dest_callsign@,
    ensures
        spec_encoded(Packet::Control(a), fec) == spec_encoded(Packet::Control(b), fec),
{
    assert(spec_inner_bytes(Packet::Control(a)) =~= spec_inner_bytes(Packet::Control(b)));
}

/// The packet is a Data packet with exactly this header and payload.
pub open spec fn spec_is_data_packet_with(p: Packet, h: DataPacket, body: Seq<u8>) -> bool {
    match p {
        Packet::Data(h2, p2) => h2 == h && p2@ == body,
        _ => false,
    }
}

/// Whether encoded frame bytes carry the Data type in their leading byte;
/// both coded and plain frames lead with the packet's first plain byte.
pub open spec fn spec_frame_is_data(f: Seq<u8>) -> bool {
    f.len() >= 1 && f[0] / 64 == 1
}

/// A non-Data packet's encoding never looks like a Data frame: its leading
/// byte carries the packet's own type bits.
pub proof fn lemma_encoded_not_data(p: Packet, fec: bool)
    requires
        !(p matches Packet::Data(_, _)),
    ensures
        !spec_frame_is_data(spec_encoded(p, fec)),
{
    lemma_inner_type_bits(p);
    assert(spec_encoded(p, fec)[0] == spec_inner_bytes(p)[0]);
}

/// Under the hypothesis that `data` is a coded Data frame, its split header
/// is a code word over the header bytes.
proof fn lemma_under_data_hyp(data: Seq<u8>, header9: Seq<u8>, hh: DataPacket, blocks: Seq<u8>)
    requires
        data == spec_data_frame_bytes(hh, blocks),
        data.len() >= 9,
        header9 == data.take(3) + data.skip(data.len() - (FEC_CRC_BYTES as int)),
    ensures
        header9 == spec_data_header(hh) + rs_parity(spec_data_header(hh), FEC_CRC_BYTES as int),
        crate::fec::rs_is_codeword(header9, FEC_CRC_BYTES as int),
        header9.len() == 9,
{
    let hd = spec_data_header(hh);
    assert(hd.len() == 3);
    assert(header9 =~= hd + rs_parity(hd, FEC_CRC_BYTES as int));
    lemma_encoded_is_codeword(hd, FEC_CRC_BYTES as int);
}

/// Under the hypothesis that `data` is a whole-frame-coded packet, its split
/// header is a code word over the first three plain bytes.
proof fn lemma_under_fec_hyp(data: Seq<u8>, header9: Seq<u8>, p: Packet)
    requires
        data == spec_encode_fec(p),
        spec_fec_encodable(p),
        data.len() >= 9,
        header9 == data.take(3) + data.skip(data.len() - (FEC_CRC_BYTES as int)),
    ensures
        header9 == spec_inner_bytes(p).take(3) + rs_parity(
            spec_inner_bytes(p).take(3),
            FEC_CRC_BYTES as int,
        ),
        crate::fec::rs_is_codeword(header9, FEC_CRC_BYTES as int),
        header9.len() == 9,
        header9[0] == spec_inner_bytes(p)[0],
        data.len() == 3 * (spec_inner_bytes(p).len() as int) + FEC_CRC_BYTES,
        data.take(3 * (spec_inner_bytes(p).len() as int)) == spec_inner_bytes(p) + rs_parity(
            spec_inner_bytes(p),
            2 * (spec_inner_bytes(p).len() as int),
        ),
{
    let inner = spec_inner_bytes(p);
    let h3 = inner.take(3);
    assert(header9 =~= h3 + rs_parity(h3, FEC_CRC_BYTES as int));
    lemma_encoded_is_codeword(h3, FEC_CRC_BYTES as int);
    assert(data.take(3 * (inner.len() as int)) =~= inner + rs_parity(inner, 2 * (inner.len() as int)));
}

/// Decodes one received frame. Without coding the bytes are parsed as they
/// stand and the error count is zero. With coding, the first three bytes plus
/// the trailing six parity bytes are corrected first: a Data header keeps its
/// payload blocks coded for `decode_data_blocks`, anything else is decoded as
/// a whole frame whose plain length is a third of the coded length. Whatever
/// was sent intact decodes back to the packet it came from, with an error
/// count of zero.
pub fn decode(data: &[u8], fec_enabled: bool) -> (r: Result<(Packet, usize), PacketDecodeError>)
    ensures
        r matches Ok(t) ==> t.1 <= 510,
        r matches Ok(t) ==> (t.0 matches Packet::Data(h, _) ==> spec_valid_header(h)),
        !fec_enabled ==> {
            &&& r matches Ok(t) ==> spec_plain_decodes_to(data@, t.0) && t.1 == 0
            &&& (r is Ok <==> spec_plain_decode_ok(data@))
        },
        fec_enabled ==> forall|p: Packet|
            spec_valid_packet(p) && spec_fec_encodable(p) && data@ == #[trigger] spec_encode_fec(p)
                ==> (r matches Ok(t) && spec_packet_eq(p, t.0) && t.1 == 0),
        fec_enabled ==> forall|hh: DataPacket, blocks: Seq<u8>|
            spec_valid_header(hh) && data@ == #[trigger] spec_data_frame_bytes(hh, blocks) ==> (r
                matches Ok(t) && (t.0 matches Packet::Data(h2, payload) && h2 == hh && payload@
                == blocks) && t.1 == 0),
{
    if !fec_enabled {
        return match decode_corrected(data) {
            Ok(p) => Ok((p, 0)),
            Err(e) => Err(e),
        };
    }
    if data.len() < 9 {
        proof {
            assert forall|p: Packet|
                spec_valid_packet(p) && spec_fec_encodable(p) && data@
                    == #[trigger] spec_encode_fec(p) implies false by {
                assert(data@.len() >= 9 + spec_inner_bytes(p).len());
            }
            assert forall|hh: DataPacket, blocks: Seq<u8>|
                spec_valid_header(hh) && data@ == #[trigger] spec_data_frame_bytes(
                    hh,
                    blocks,
                ) implies false by {
                assert(data@.len() >= 9);
            }
        }
        return Err(PacketDecodeError::BadFormat);
    }

    match try_decode_fec_data(data) {
        Some((p, errs)) => Ok((p, errs)),
        None => {
            // Possibly a whole-frame-coded packet: 3n code bytes for n plain
            // bytes, plus the six header parity bytes.
            let potential = data.len() - FEC_CRC_BYTES;
            if potential % 3 == 0 && potential <= 255 {
                let plain_len = potential / 3;
                let word = copy_range(data, 0, potential);
                match rs_correct(word.as_slice(), potential - plain_len) {
                    Some((fixed, errs)) => {
                        let inner = copy_range(fixed.as_slice(), 0, plain_len);
                        match decode_corrected(inner.as_slice()) {
                            Ok(p) => {
                                proof {
                                    assert forall|pp: Packet|
                                        spec_valid_packet(pp) && spec_fec_encodable(pp) && data@
                                            == #[trigger] spec_encode_fec(pp) implies (
                                        spec_packet_eq(pp, p) && errs == 0) by {
                                        lemma_whole_frame_path(data@, word@, pp);
                                        assert(fixed@ == word@ && errs == 0);
                                        assert(inner@ =~= spec_inner_bytes(pp));
                                        lemma_plain_round_trip(pp);
                                    }
                                }
                                Ok((p, errs))
                            },
                            Err(e) => {
                                proof {
                                    assert forall|pp: Packet|
                                        spec_valid_packet(pp) && spec_fec_encodable(pp) && data@
                                            == #[trigger] spec_encode_fec(pp) implies false by {
                                        lemma_whole_frame_path(data@, word@, pp);
                                        assert(fixed@ == word@ && errs == 0);
                                        assert(inner@ =~= spec_inner_bytes(pp));
                                        lemma_plain_round_trip(pp);
                                    }
                                }
                                Err(e)
                            },
                        }
                    },
                    None => {
                        proof {
                            assert forall|pp: Packet|
                                spec_valid_packet(pp) && spec_fec_encodable(pp) && data@
                                    == #[trigger] spec_encode_fec(pp) implies false by {
                                lemma_whole_frame_path(data@, word@, pp);
                            }
                        }
                        Err(PacketDecodeError::TooManyFECErrors)
                    },
                }
            } else {
                proof {
                    assert forall|pp: Packet|
                        spec_valid_packet(pp) && spec_fec_encodable(pp) && data@
                            == #[trigger] spec_encode_fec(pp) implies false by {
                        let n = spec_inner_bytes(pp).len() as int;
                        assert(data@.len() == 3 * n + FEC_CRC_BYTES);
                        assert((3 * n) % 3 == 0) by {
                            vstd::arithmetic::div_mod::lemma_mod_multiples_basic(n, 3);
                        }
                    }
                }
                Err(PacketDecodeError::TooManyFECErrors)
            }
        },
    }
}

/// Payload bytes drawn from the source for one block: a whole Reed-Solomon
/// block less the parity, and never more than the frame's capacity.
pub open spec fn spec_block_cap(fec: bool, k: u8, link_width: int) -> int {
    let data_size = link_width - (if fec {
        3 + FEC_CRC_BYTES as int
    } else {
        3int
    });
    (if data_size <= 255 {
        data_size
    } else {
        255int
    }) - (if fec {
        spec_fec_bytes(k)
    } else {
        0int
    })
}

/// Count of payload blocks per frame.
pub open spec fn spec_block_count(fec: bool, link_width: int) -> int {
    let data_size = link_width - (if fec {
        3 + FEC_CRC_BYTES as int
    } else {
        3int
    });
    if data_size % 256 != 0 {
        data_size / 256 + 1
    } else {
        data_size / 256
    }
}

/// The payload blocks of one Data frame, as they go on the wire: up to
/// `blocks` chunks of at most `cap` source bytes, each followed by its own
/// parity when coding is on; drawing stops at the end of the source.
pub open spec fn spec_data_blocks(
    source: Seq<u8>,
    cap: int,
    blocks: int,
    ecc: int,
    fec: bool,
) -> Seq<u8>
    decreases blocks,
{
    if blocks <= 0 || source.len() == 0 || cap <= 0 {
        Seq::empty()
    } else if source.len() < cap {
        if fec {
            source + rs_parity(source, ecc)
        } else {
            source
        }
    } else {
        let chunk = source.take(cap);
        let enc = if fec {
            chunk + rs_parity(chunk, ecc)
        } else {
            chunk
        };
        enc + spec_data_blocks(source.skip(cap), cap, blocks - 1, ecc, fec)
    }
}

/// How many source bytes one frame consumes.
pub open spec fn spec_data_consumed(source_len: int, cap: int, blocks: int) -> int {
    if cap <= 0 || blocks <= 0 {
        0
    } else if source_len <= cap * blocks {
        source_len
    } else {
        cap * blocks
    }
}

/// Whether the frame exhausted its source.
pub open spec fn spec_data_eof(source_len: int, cap: int, blocks: int) -> bool {
    source_len < cap * blocks
}

/// One whole Data frame read from the front of `source`.
pub open spec fn spec_encoded_data_frame(
    h: DataPacket,
    source: Seq<u8>,
    fec: bool,
    link_width: int,
) -> Seq<u8> {
    let body = spec_data_blocks(
        source,
        spec_block_cap(fec, h.fec_bytes, link_width),
        spec_block_count(fec, link_width),
        spec_fec_bytes(h.fec_bytes),
        fec,
    );
    if fec {
        spec_data_frame_bytes(h, body)
    } else {
        spec_data_header(h) + body
    }
}

/// Encodes one Data frame: the three-byte header in the clear, then payload
/// blocks drawn from `data`, each coded on its own when `fec` is set, and
/// finally the header's own parity. Returns the frame length, the count of
/// source bytes consumed, and whether the source ran dry.
pub fn encode_data(
    header: DataPacket,
    fec: bool,
    link_width: usize,
    data: &mut ByteReader,
    writer: &mut Vec<u8>,
) -> (r: (usize, usize, bool))
    requires
        old(data).wf(),
        spec_block_cap(fec, header.fec_bytes, link_width as int) >= 1,
    ensures
        final(data).wf(),
        final(data).data@ == old(data).data@,
        final(writer)@ == old(writer)@ + spec_encoded_data_frame(
            header,
            old(data).remaining_seq(),
            fec,
            link_width as int,
        ),
        r.0 == spec_encoded_data_frame(
            header,
            old(data).remaining_seq(),
            fec,
            link_width as int,
        ).len(),
        r.1 == spec_data_consumed(
            old(data).remaining_seq().len() as int,
            spec_block_cap(fec, header.fec_bytes, link_width as int),
            spec_block_count(fec, link_width as int),
        ),
        final(data).position == old(data).position + r.1,
        r.2 == spec_data_eof(
            old(data).remaining_seq().len() as int,
            spec_block_cap(fec, header.fec_bytes, link_width as int),
            spec_block_count(fec, link_width as int),
        ),
{
    let ghost source: Seq<u8> = old(data).remaining_seq();
    let ghost gecc: int = spec_fec_bytes(header.fec_bytes);
    let start_len: usize = writer.len();

    let ecc: usize = if fec {
        get_fec_bytes(header.fec_bytes)
    } else {
        0
    };
    let header_size: usize = if fec {
        3 + FEC_CRC_BYTES
    } else {
        3
    };
    let data_size: usize = link_width - header_size;
    let block_count: usize = if data_size % 256 != 0 {
        data_size / 256 + 1
    } else {
        data_size / 256
    };
    let cap: usize = (if data_size <= 255 {
        data_size
    } else {
        255
    }) - ecc;
    proof {
        assert(cap == spec_block_cap(fec, header.fec_bytes, link_width as int));
        assert(block_count == spec_block_count(fec, link_width as int));
        assert(block_count >= 1);
    }

    // The header goes out in the clear.
    let mut scratch_header: Vec<u8> = Vec::new();
    let idx: u16 = header.packet_idx % 16384;
    let flags: u8 = (if header.start_flag {
        128
    } else {
        0
    }) + (if header.end_flag {
        64
    } else {
        0
    }) + (header.fec_bytes % 64);
    scratch_header.push((64 + idx / 256) as u8);
    scratch_header.push((idx % 256) as u8);
    scratch_header.push(flags);
    proof {
        assert(scratch_header@ =~= spec_data_header(header));
    }
    push_range(writer, scratch_header.as_slice(), 0, 3);

    let mut data_written: usize = 0;
    let mut eof: bool = false;
    let mut b: usize = 0;
    proof {
        assert(writer@.skip(old(writer)@.len() as int + 3) =~= Seq::<u8>::empty());
        assert(source.skip(0) =~= source);
    }
    while b < block_count && !eof
        invariant
            data.wf(),
            block_count == spec_block_count(fec, link_width as int),
            scratch_header@ == spec_data_header(header),
            start_len == old(writer)@.len(),
            data.data@ == old(data).data@,
            source == old(data).remaining_seq(),
            cap == spec_block_cap(fec, header.fec_bytes, link_width as int),
            1 <= cap,
            cap + ecc <= 255,
            ecc == if fec {
                gecc
            } else {
                0int
            },
            gecc == spec_fec_bytes(header.fec_bytes),
            fec ==> gecc == ecc,
            0 <= b <= block_count,
            data.position == old(data).position + data_written,
            data_written <= cap * b,
            data_written <= source.len(),
            !eof ==> data_written == cap * b,
            eof ==> data_written == source.len() && data_written < cap * b,
            writer@ == old(writer)@ + spec_data_header(header) + (writer@.skip(
                old(writer)@.len() as int + 3,
            )),
            spec_data_blocks(source, cap as int, block_count as int, gecc, fec)
                == writer@.skip(old(writer)@.len() as int + 3) + spec_data_blocks(
                source.skip(data_written as int),
                cap as int,
                block_count - b,
                gecc,
                fec,
            ),
        decreases block_count - b,
    {
        let ghost rem: Seq<u8> = source.skip(data_written as int);
        proof {
            assert(rem == data.remaining_seq());
        }
        let mut chunk: Vec<u8> = Vec::new();
        let read = data.read_into(cap, &mut chunk);
        proof {
            assert(chunk@ == rem.take(read as int));
        }
        if read < cap {
            eof = true;
        }
        if fec {
            if chunk.len() > 0 {
                let enc = rs_encode(chunk.as_slice(), ecc);
                push_range(writer, enc.as_slice(), 0, enc.len());
            }
        } else {
            push_range(writer, chunk.as_slice(), 0, chunk.len());
        }
        proof {
            if rem.len() == 0 {
                assert(spec_data_blocks(rem, cap as int, block_count - b, gecc, fec)
                    =~= Seq::<u8>::empty());
                assert(rem.skip(read as int) =~= rem);
            } else if rem.len() < cap {
                assert(chunk@ =~= rem);
                assert(rem.skip(read as int) =~= Seq::<u8>::empty());
            } else {
                assert(chunk@ =~= rem.take(cap as int));
                assert(rem.skip(read as int) =~= source.skip(data_written + read));
            }
            assert(source.skip(data_written + read) =~= rem.skip(read as int));
        }
        data_written = data_written + read;
        b = b + 1;
        proof {
            assert(data_written <= cap * b && (!eof ==> data_written == cap * b) && (eof
                ==> data_written < cap * b)) by {
                assert(cap * b == cap * (b - 1) + cap) by (nonlinear_arith);
            }
            assert(spec_data_blocks(source, cap as int, block_count as int, gecc, fec)
                =~= writer@.skip(old(writer)@.len() as int + 3) + spec_data_blocks(
                source.skip(data_written as int),
                cap as int,
                block_count - b,
                gecc,
                fec,
            ));
            assert(writer@ =~= old(writer)@ + spec_data_header(header) + (writer@.skip(
                old(writer)@.len() as int + 3,
            )));
        }
    }
    proof {
        assert(cap * b <= cap * block_count) by (nonlinear_arith)
            requires
                0 <= cap && b <= block_count,
        ;
        if eof {
            assert(source.skip(data_written as int) =~= Seq::<u8>::empty());
            assert(spec_data_blocks(Seq::<u8>::empty(), cap as int, block_count - b, gecc, fec)
                =~= Seq::<u8>::empty());
            assert(data_written == source.len());
            assert(source.len() < cap * block_count);
        } else {
            assert(b == block_count);
            assert(data_written == cap * block_count);
            assert(source.len() >= cap * block_count);
        }
        assert(spec_data_blocks(source, cap as int, block_count as int, gecc, fec) == writer@.skip(
            old(writer)@.len() as int + 3,
        ));
        assert(data_written == spec_data_consumed(
            source.len() as int,
            cap as int,
            block_count as int,
        ));
        assert(eof == spec_data_eof(source.len() as int, cap as int, block_count as int));
    }

    if fec {
        let crc = rs_encode(scratch_header.as_slice(), FEC_CRC_BYTES);
        push_range(writer, crc.as_slice(), 3, 3 + FEC_CRC_BYTES);
        proof {
            assert(crc@.subrange(3, 3 + FEC_CRC_BYTES as int) =~= rs_parity(
                spec_data_header(header),
                FEC_CRC_BYTES as int,
            ));
            assert(writer@ =~= old(writer)@ + spec_encoded_data_frame(
                header,
                source,
                fec,
                link_width as int,
            ));
        }
    } else {
        proof {
            assert(writer@ =~= old(writer)@ + spec_encoded_data_frame(
                header,
                source,
                fec,
                link_width as int,
            ));
        }
    }

    (writer.len() - start_len, data_written, eof)
}

/// Whether a payload splits into 255-byte chunks that are each a code word
/// with at least one data byte.
pub open spec fn spec_chunks_codewords(payload: Seq<u8>, ecc: int) -> bool
    decreases payload.len(),
{
    payload.len() == 0 || {
        let c = if payload.len() <= 255 {
            payload.len() as int
        } else {
            255int
        };
        &&& ecc < c
        &&& crate::fec::rs_is_codeword(payload.take(c), ecc)
        &&& spec_chunks_codewords(payload.skip(c), ecc)
    }
}

/// The data parts of a payload's 255-byte chunks, in order.
pub open spec fn spec_chunks_data(payload: Seq<u8>, ecc: int) -> Seq<u8>
    decreases payload.len(),
{
    if payload.len() == 0 || ecc < 0 {
        Seq::empty()
    } else {
        let c = if payload.len() <= 255 {
            payload.len() as int
        } else {
            255int
        };
        if c <= ecc {
            Seq::empty()
        } else {
            payload.take(c).take(c - ecc) + spec_chunks_data(payload.skip(c), ecc)
        }
    }
}

/// Decodes the payload blocks of a Data packet into `out`. Without coding the
/// payload is already plain and passes through with an error count of zero.
/// With coding, each 255-byte chunk is corrected on its own and its data part
/// appended; intact chunks pass through unchanged with zero errors, and a
/// chunk beyond repair leaves what was already decoded in `out`.
pub fn decode_data_blocks(
    header: &DataPacket,
    data: &[u8],
    fec: bool,
    out: &mut Vec<u8>,
) -> (r: Result<usize, DataDecodeError>)
    requires
        header.fec_bytes < 64,
    ensures
        r matches Ok(e) ==> e <= data@.len(),
        old(out)@.is_prefix_of(final(out)@),
        !fec ==> r == Ok::<usize, DataDecodeError>(0usize) && final(out)@ == old(out)@ + data@,
        fec && spec_chunks_codewords(data@, spec_fec_bytes(header.fec_bytes)) ==> r == Ok::<
            usize,
            DataDecodeError,
        >(0usize) && final(out)@ == old(out)@ + spec_chunks_data(
            data@,
            spec_fec_bytes(header.fec_bytes),
        ),
{
    if !fec {
        push_range(out, data, 0, data.len());
        proof {
            assert(data@.subrange(0, data@.len() as int) =~= data@);
        }
        return Ok(0);
    }

    let ecc = get_fec_bytes(header.fec_bytes);
    let ghost good: bool = spec_chunks_codewords(data@, ecc as int);
    let mut acc: usize = 0;
    let mut i: usize = 0;
    proof {
        assert(data@.skip(0) =~= data@);
        assert(out@.skip(old(out)@.len() as int) =~= Seq::<u8>::empty());
    }
    while i < data.len()
        invariant
            fec,
            0 <= i <= data@.len(),
            ecc == spec_fec_bytes(header.fec_bytes),
            1 <= ecc <= 128,
            acc <= i,
            old(out)@.is_prefix_of(out@),
            good == spec_chunks_codewords(data@, ecc as int),
            good ==> {
                &&& acc == 0
                &&& spec_chunks_codewords(data@.skip(i as int), ecc as int)
                &&& spec_chunks_data(data@, ecc as int) == out@.skip(old(out)@.len() as int)
                    + spec_chunks_data(data@.skip(i as int), ecc as int)
            },
        decreases data@.len() - i,
    {
        let ghost rem: Seq<u8> = data@.skip(i as int);
        let end: usize = if data.len() - i <= 255 {
            data.len()
        } else {
            i + 255
        };
        let ghost c: int = end - i;
        proof {
            assert(rem.take(c) =~= data@.subrange(i as int, end as int));
        }
        if end - i < ecc || end - i > 255 {
            proof {
                if good {
                    assert(spec_chunks_codewords(rem, ecc as int));
                    assert(false);
                }
            }
            return Err(DataDecodeError::TooManyFECErrors);
        }
        let chunk = copy_range(data, i, end);
        match rs_correct(chunk.as_slice(), ecc) {
            Some((corrected, errs)) => {
                push_range(out, corrected.as_slice(), 0, corrected.len() - ecc);
                proof {
                    if good {
                        assert(spec_chunks_codewords(rem, ecc as int));
                        assert(crate::fec::rs_is_codeword(rem.take(c), ecc as int));
                        assert(corrected@ == chunk@ && errs == 0);
                        assert(corrected@.subrange(0, c - ecc) =~= rem.take(c).take(c - ecc));
                        assert(rem.skip(c) =~= data@.skip(end as int));
                        assert(spec_chunks_data(data@, ecc as int) =~= (out@.skip(
                            old(out)@.len() as int,
                        ) + spec_chunks_data(data@.skip(end as int), ecc as int)));
                    }
                }
                acc = acc + errs;
            },
            None => {
                proof {
                    if good {
                        assert(spec_chunks_codewords(rem, ecc as int));
                        assert(crate::fec::rs_is_codeword(rem.take(c), ecc as int));
                        assert(false);
                    }
                }
                return Err(DataDecodeError::TooManyFECErrors);
            },
        }
        i = end;
    }
    proof {
        if good {
            assert(data@.skip(i as int) =~= Seq::<u8>::empty());
            assert(spec_chunks_data(Seq::<u8>::empty(), ecc as int) =~= Seq::<u8>::empty());
            assert(out@ =~= old(out)@ + spec_chunks_data(data@, ecc as int));
        }
    }
    Ok(acc)
}

/// Fragments that this codec emits reassemble to the consumed source prefix:
/// the payload blocks of one frame are intact code words whose data parts,
/// in order, are exactly the source bytes the frame consumed; without coding
/// the body is those bytes themselves.
pub proof fn lemma_fragment_reassembly(source: Seq<u8>, k: u8, fec: bool, link_width: int)
    requires
        spec_block_cap(fec, k, link_width) >= 1,
    ensures
        ({
            let cap = spec_block_cap(fec, k, link_width);
            let blocks = spec_block_count(fec, link_width);
            let ecc = spec_fec_bytes(k);
            let body = spec_data_blocks(source, cap, blocks, ecc, fec);
            let consumed = spec_data_consumed(source.len() as int, cap, blocks);
            &&& (fec ==> spec_chunks_codewords(body, ecc) && spec_chunks_data(body, ecc)
                == source.take(consumed))
            &&& (!fec ==> body == source.take(consumed))
        }),
{
    let cap = spec_block_cap(fec, k, link_width);
    let blocks = spec_block_count(fec, link_width);
    let ecc = spec_fec_bytes(k);
    let data_size = link_width - (if fec {
        3 + FEC_CRC_BYTES as int
    } else {
        3int
    });
    let chunk_len = cap + (if fec {
        ecc
    } else {
        0int
    });
    assert(blocks >= 1);
    assert(chunk_len <= 255);
    if data_size >= 256 {
        assert(chunk_len == 255);
    } else {
        assert(blocks == 1);
    }
    lemma_blocks_reassemble(source, cap, blocks, ecc, fec);
}

/// Induction for `lemma_fragment_reassembly`, over the block count.
#[verifier::rlimit(30)]
proof fn lemma_blocks_reassemble(source: Seq<u8>, cap: int, blocks: int, ecc: int, fec: bool)
    requires
        cap >= 1,
        blocks >= 1,
        ecc >= if fec {
            2int
        } else {
            0int
        },
        fec ==> cap + ecc <= 255,
        fec && blocks > 1 ==> cap + ecc == 255,
    ensures
        ({
            let body = spec_data_blocks(source, cap, blocks, ecc, fec);
            let consumed = spec_data_consumed(source.len() as int, cap, blocks);
            &&& (fec ==> spec_chunks_codewords(body, ecc) && spec_chunks_data(body, ecc)
                == source.take(consumed))
            &&& (!fec ==> body == source.take(consumed))
        }),
    decreases blocks,
{
    let body = spec_data_blocks(source, cap, blocks, ecc, fec);
    let consumed = spec_data_consumed(source.len() as int, cap, blocks);
    assert(cap <= cap * blocks && (blocks > 1 ==> cap * (blocks - 1) + cap == cap * blocks) && (
    blocks == 1 ==> cap * blocks == cap)) by (nonlinear_arith)
        requires
            cap >= 1 && blocks >= 1,
    ;
    if source.len() == 0 {
        assert(body =~= Seq::<u8>::empty());
        assert(source.take(consumed) =~= Seq::<u8>::empty());
        if fec {
            assert(spec_chunks_data(body, ecc) =~= source.take(consumed));
        }
    } else if source.len() < cap {
        assert(consumed == source.len());
        assert(source.take(consumed) =~= source);
        if fec {
            assert(body == source + rs_parity(source, ecc));
            assert(body.len() == source.len() + ecc <= 255);
            let c = body.len() as int;
            assert(body.take(c) =~= body);
            assert(body.skip(c) =~= Seq::<u8>::empty());
            lemma_encoded_is_codeword(source, ecc);
            assert(body.take(c).take(c - ecc) =~= source);
            assert(body.skip(c) == Seq::<u8>::empty());
            assert(spec_chunks_data(Seq::<u8>::empty(), ecc) == Seq::<u8>::empty());
            assert(spec_chunks_codewords(Seq::<u8>::empty(), ecc));
            assert(spec_chunks_data(body, ecc) =~= source);
        } else {
            assert(body =~= source);
        }
    } else {
        let chunk = source.take(cap);
        let enc = if fec {
            chunk + rs_parity(chunk, ecc)
        } else {
            chunk
        };
        let rest = spec_data_blocks(source.skip(cap), cap, blocks - 1, ecc, fec);
        assert(body == enc + rest);
        if blocks == 1 {
            assert(rest =~= Seq::<u8>::empty());
            assert(body =~= enc);
            assert(consumed == cap);
            if fec {
                let c = enc.len() as int;
                assert(c == cap + ecc <= 255);
                assert(body.take(c) =~= enc);
                assert(body.skip(c) =~= Seq::<u8>::empty());
                lemma_encoded_is_codeword(chunk, ecc);
                assert(body.take(c).take(c - ecc) =~= chunk);
                assert(body.skip(c) == Seq::<u8>::empty());
                assert(spec_chunks_data(Seq::<u8>::empty(), ecc) == Seq::<u8>::empty());
                assert(spec_chunks_codewords(Seq::<u8>::empty(), ecc));
                assert(chunk =~= source.take(consumed));
                assert(spec_chunks_data(body, ecc) =~= source.take(consumed));
            } else {
                assert(body =~= source.take(consumed));
            }
        } else {
            lemma_blocks_reassemble(source.skip(cap), cap, blocks - 1, ecc, fec);
            let tail_consumed = spec_data_consumed(source.skip(cap).len() as int, cap, blocks - 1);
            assert(consumed == cap + tail_consumed);
            if fec {
                let c = 255int;
                assert(enc.len() == c);
                assert(body.len() > 255 || body.len() == 255 + rest.len());
                assert(body.take(c) =~= enc);
                assert(body.skip(c) =~= rest);
                lemma_encoded_is_codeword(chunk, ecc);
                if body.len() <= 255 {
                    assert(rest.len() == 0);
                    assert(spec_chunks_codewords(body, ecc));
                } else {
                    assert(spec_chunks_codewords(body, ecc));
                }
                assert(body.take(c).take(c - ecc) =~= chunk);
                assert(source.skip(cap).take(tail_consumed) =~= source.take(consumed).skip(cap));
                assert(spec_chunks_data(body, ecc) =~= chunk + source.skip(cap).take(
                    tail_consumed,
                ));
                assert(chunk + source.take(consumed).skip(cap) =~= source.take(consumed));
                assert(spec_chunks_data(body, ecc) =~= source.take(consumed));
            } else {
                assert(body =~= chunk + source.skip(cap).take(tail_consumed));
                assert(chunk + source.take(consumed).skip(cap) =~= source.take(consumed));
                assert(body =~= source.take(consumed));
            }
        }
    }
}

/// What a whole payload reassembles to when it is fragmented frame after
/// frame, as a sender does: each step encodes one frame's blocks from the
/// front of what is left (`spec_data_blocks`), the receiver decodes them
/// (`spec_chunks_data`), and the source advances by the consumed count, as
/// `encode_data` advances its reader.
pub open spec fn spec_reassembled(
    source: Seq<u8>,
    cap: int,
    blocks: int,
    ecc: int,
    fec: bool,
) -> Seq<u8>
    decreases source.len()
        when cap >= 1 && blocks >= 1 && cap * blocks >= 1
{
    if source.len() == 0 {
        Seq::empty()
    } else {
        let body = spec_data_blocks(source, cap, blocks, ecc, fec);
        let consumed = spec_data_consumed(source.len() as int, cap, blocks);
        (if fec {
            spec_chunks_data(body, ecc)
        } else {
            body
        }) + spec_reassembled(source.skip(consumed), cap, blocks, ecc, fec)
    }
}

/// Fragmenting a whole payload frame after frame and reassembling every
/// frame's blocks, in order, yields exactly the payload.
pub proof fn lemma_whole_payload_reassembly(source: Seq<u8>, k: u8, fec: bool, link_width: int)
    requires
        spec_block_cap(fec, k, link_width) >= 1,
    ensures
        spec_reassembled(
            source,
            spec_block_cap(fec, k, link_width),
            spec_block_count(fec, link_width),
            spec_fec_bytes(k),
            fec,
        ) == source,
{
    let cap = spec_block_cap(fec, k, link_width);
    let blocks = spec_block_count(fec, link_width);
    let ecc = spec_fec_bytes(k);
    let data_size = link_width - (if fec {
        3 + FEC_CRC_BYTES as int
    } else {
        3int
    });
    let chunk_len = cap + (if fec {
        ecc
    } else {
        0int
    });
    assert(blocks >= 1);
    assert(chunk_len <= 255);
    if data_size >= 256 {
        assert(chunk_len == 255);
    } else {
        assert(blocks == 1);
    }
    lemma_reassembled_whole(source, cap, blocks, ecc, fec);
}

/// Induction for `lemma_whole_payload_reassembly`, over the payload length.
proof fn lemma_reassembled_whole(source: Seq<u8>, cap: int, blocks: int, ecc: int, fec: bool)
    requires
        cap >= 1,
        blocks >= 1,
        ecc >= if fec {
            2int
        } else {
            0int
        },
        fec ==> cap + ecc <= 255,
        fec && blocks > 1 ==> cap + ecc == 255,
    ensures
        spec_reassembled(source, cap, blocks, ecc, fec) == source,
    decreases source.len(),
{
    assert(cap * blocks >= 1) by (nonlinear_arith)
        requires
            cap >= 1 && blocks >= 1,
    ;
    if source.len() == 0 {
        assert(spec_reassembled(source, cap, blocks, ecc, fec) =~= source);
    } else {
        lemma_blocks_reassemble(source, cap, blocks, ecc, fec);
        let consumed = spec_data_consumed(source.len() as int, cap, blocks);
        assert(1 <= consumed <= source.len());
        lemma_reassembled_whole(source.skip(consumed), cap, blocks, ecc, fec);
        assert(source.take(consumed) + source.skip(consumed) =~= source);
        assert(spec_reassembled(source, cap, blocks, ecc, fec) =~= source);
    }
}

/// Under the hypothesis that `data` is a whole-frame-coded packet, the front
/// of the frame is a code word whose data part is the plain bytes.
proof fn lemma_whole_frame_path(data: Seq<u8>, word: Seq<u8>, p: Packet)
    requires
        data == spec_encode_fec(p),
        spec_fec_encodable(p),
        word == data.take(data.len() - (FEC_CRC_BYTES as int)),
    ensures
        word == spec_inner_bytes(p) + rs_parity(spec_inner_bytes(p), 2 * (spec_inner_bytes(p).len() as int)),
        crate::fec::rs_is_codeword(word, 2 * (spec_inner_bytes(p).len() as int)),
        data.len() == 3 * (spec_inner_bytes(p).len() as int) + FEC_CRC_BYTES,
        word.len() == 3 * (spec_inner_bytes(p).len() as int),
        word.take(spec_inner_bytes(p).len() as int) == spec_inner_bytes(p),
{
    let inner = spec_inner_bytes(p);
    assert(word =~= inner + rs_parity(inner, 2 * (inner.len() as int)));
    lemma_encoded_is_codeword(inner, 2 * (inner.len() as int));
    assert(word.take(inner.len() as int) =~= inner);
}

} // verus!
