//! RTP packet structure and its wire format.
//!
//! The profile is fixed: version 2, no padding, no extension, no CSRC, no
//! marker bit, payload type 96.  The header is exactly 12 bytes, big-endian,
//! followed by the payload verbatim.

use vstd::prelude::*;

verus! {

/// RTP protocol version carried by every packet.
pub const RTP_VERSION: u8 = 2;

/// Payload type for the dynamically assigned voice codec.
pub const PAYLOAD_TYPE_OPUS: u8 = 96;

/// Length of the fixed RTP header in bytes.
pub const HEADER_LEN: usize = 12;

/// An RTP packet: the three header fields this profile carries, plus the
/// opaque encoded payload.
#[derive(Debug, Clone)]
pub struct RtpPacket {
    /// Packet sequence number (wraps at 65535).
    pub sequence: u16,
    /// RTP timestamp in sample units.
    pub timestamp: u32,
    /// Synchronization source identifier.
    pub ssrc: u32,
    /// Encoded audio payload.
    pub payload: Vec<u8>,
}

/// Mathematical model of an RTP packet.
pub struct PacketModel {
    pub sequence: u16,
    pub timestamp: u32,
    pub ssrc: u32,
    pub payload: Seq<u8>,
}

impl View for RtpPacket {
    type V = PacketModel;

    open spec fn view(&self) -> PacketModel {
        PacketModel {
            sequence: self.sequence,
            timestamp: self.timestamp,
            ssrc: self.ssrc,
            payload: self.payload@,
        }
    }
}

/// Why a datagram failed to decode.
#[derive(Debug, Clone, Copy, PartialEq, Eq, Structural)]
pub enum RtpError {
    /// Fewer than 12 bytes: no complete header.
    TooShort,
    /// The version field is not 2.
    BadVersion,
}

/// High byte of a 16-bit big-endian value.
pub open spec fn u16_hi(x: u16) -> u8 {
    (x / 256) as u8
}

/// Low byte of a 16-bit big-endian value.
pub open spec fn u16_lo(x: u16) -> u8 {
    (x % 256) as u8
}

/// Byte `i` (0 = most significant) of a 32-bit big-endian value.
pub open spec fn u32_byte(x: u32, i: int) -> u8 {
    if i == 0 {
        (x / 0x1000000) as u8
    } else if i == 1 {
        ((x / 0x10000) % 256) as u8
    } else if i == 2 {
        ((x / 256) % 256) as u8
    } else {
        (x % 256) as u8
    }
}

/// The exact wire image of a packet: 12 header bytes then the payload.
pub open spec fn encode_bytes(p: PacketModel) -> Seq<u8> {
    seq![
        0x80u8,
        0x60u8,
        u16_hi(p.sequence),
        u16_lo(p.sequence),
        u32_byte(p.timestamp, 0),
        u32_byte(p.timestamp, 1),
        u32_byte(p.timestamp, 2),
        u32_byte(p.timestamp, 3),
        u32_byte(p.ssrc, 0),
        u32_byte(p.ssrc, 1),
        u32_byte(p.ssrc, 2),
        u32_byte(p.ssrc, 3),
    ] + p.payload
}

/// The version field of a wire image with at least one byte.
pub open spec fn wire_version(bytes: Seq<u8>) -> u8 {
    (bytes[0] / 64) as u8
}

/// The packet a valid wire image denotes.
pub open spec fn decode_model(bytes: Seq<u8>) -> PacketModel {
    PacketModel {
        sequence: (bytes[2] * 256 + bytes[3]) as u16,
        timestamp: (bytes[4] * 0x1000000 + bytes[5] * 0x10000 + bytes[6] * 256 + bytes[7]) as u32,
        ssrc: (bytes[8] * 0x1000000 + bytes[9] * 0x10000 + bytes[10] * 256 + bytes[11]) as u32,
        payload: bytes.skip(12),
    }
}

impl RtpPacket {
    /// Creates a new RTP packet with the given header fields and payload.
    pub fn new(sequence: u16, timestamp: u32, ssrc: u32, payload: Vec<u8>) -> (p: Self)
        ensures
            p@.sequence == sequence,
            p@.timestamp == timestamp,
            p@.ssrc == ssrc,
            p@.payload == payload@,
    {
        Self { sequence, timestamp, ssrc, payload }
    }

    /// Serializes the packet into wire format: always succeeds and produces
    /// exactly `12 + payload.len()` bytes as described by [`encode_bytes`].
    pub fn serialize(&self) -> (r: Result<Vec<u8>, RtpError>)
        requires
            self.payload.len() <= usize::MAX - 12,
        ensures
            r is Ok,
            r matches Ok(bytes) ==> bytes@ == encode_bytes(self@),
    {
        let mut buf: Vec<u8> = Vec::with_capacity(12 + self.payload.len());
        buf.push(0x80);
        buf.push(0x60);
        buf.push((self.sequence / 256) as u8);
        buf.push((self.sequence % 256) as u8);
        buf.push((self.timestamp / 0x1000000) as u8);
        buf.push(((self.timestamp / 0x10000) % 256) as u8);
        buf.push(((self.timestamp / 256) % 256) as u8);
        buf.push((self.timestamp % 256) as u8);
        buf.push((self.ssrc / 0x1000000) as u8);
        buf.push(((self.ssrc / 0x10000) % 256) as u8);
        buf.push(((self.ssrc / 256) % 256) as u8);
        buf.push((self.ssrc % 256) as u8);
        let mut i: usize = 0;
        while i < self.payload.len()
            invariant
                i <= self.payload.len(),
                buf@.len() == 12 + i,
                buf@ == encode_bytes(self@).take(12 + i),
            decreases self.payload.len() - i,
        {
            buf.push(self.payload[i]);
            proof {
                assert(buf@ =~= encode_bytes(self@).take(12 + i + 1));
            }
            i += 1;
        }
        proof {
            assert(buf@ =~= encode_bytes(self@));
        }
        Ok(buf)
    }

    /// Deserializes a packet from wire format.  Rejects inputs shorter than
    /// the 12-byte header (`TooShort`) and inputs whose version field is not
    /// 2 (`BadVersion`); everything else decodes to [`decode_model`].  The
    /// marker bit and payload type are not validated.
    pub fn deserialize(data: &[u8]) -> (r: Result<Self, RtpError>)
        ensures
            data@.len() < 12 ==> r == Err::<Self, RtpError>(RtpError::TooShort),
            data@.len() >= 12 && wire_version(data@) != 2 ==> r == Err::<Self, RtpError>(
                RtpError::BadVersion,
            ),
            data@.len() >= 12 && wire_version(data@) == 2 ==> r is Ok && (r matches Ok(p) ==> p@
                == decode_model(data@)),
    {
        if data.len() < 12 {
            return Err(RtpError::TooShort);
        }
        let version: u8 = data[0] / 64;
        if version != RTP_VERSION {
            return Err(RtpError::BadVersion);
        }
        let sequence: u16 = (data[2] as u16) * 256 + (data[3] as u16);
        let timestamp: u32 = (data[4] as u32) * 0x1000000 + (data[5] as u32) * 0x10000 + (
        data[6] as u32) * 256 + (data[7] as u32);
        let ssrc: u32 = (data[8] as u32) * 0x1000000 + (data[9] as u32) * 0x10000 + (
        data[10] as u32) * 256 + (data[11] as u32);
        let mut payload: Vec<u8> = Vec::with_capacity(data.len() - 12);
        let mut i: usize = 12;
        while i < data.len()
            invariant
                12 <= i <= data@.len(),
                payload@ == data@.subrange(12, i as int),
            decreases data@.len() - i,
        {
            payload.push(data[i]);
            proof {
                assert(payload@ =~= data@.subrange(12, i + 1));
            }
            i += 1;
        }
        proof {
            assert(payload@ =~= data@.skip(12));
        }
        Ok(Self { sequence, timestamp, ssrc, payload })
    }
}

/// Round trip: decoding an encoded packet gives the packet back, for every
/// packet whose payload is at most 64 KiB.
#[verifier::rlimit(60)]
pub proof fn lemma_round_trip(p: PacketModel)
    requires
        p.payload.len() <= 65536,
    ensures
        encode_bytes(p).len() == 12 + p.payload.len(),
        wire_version(encode_bytes(p)) == 2,
        decode_model(encode_bytes(p)) == p,
{
    let bytes = encode_bytes(p);
    assert(bytes[0] == 0x80);
    assert(wire_version(bytes) == 2);
    assert(p.sequence == u16_hi(p.sequence) * 256 + u16_lo(p.sequence));
    assert(p.timestamp == u32_byte(p.timestamp, 0) * 0x1000000 + u32_byte(p.timestamp, 1)
        * 0x10000 + u32_byte(p.timestamp, 2) * 256 + u32_byte(p.timestamp, 3));
    assert(p.ssrc == u32_byte(p.ssrc, 0) * 0x1000000 + u32_byte(p.ssrc, 1) * 0x10000 + u32_byte(
        p.ssrc, 2) * 256 + u32_byte(p.ssrc, 3));
    assert(bytes.skip(12) =~= p.payload);
    assert(decode_model(bytes) == p);
}

} // verus!
