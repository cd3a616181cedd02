//! Parser for the RTP header (RFC 3550) that ka9q-radio uses.
//!
//! ```text
//!  0                   1                   2                   3
//!  0 1 2 3 4 5 6 7 8 9 0 1 2 3 4 5 6 7 8 9 0 1 2 3 4 5 6 7 8 9 0 1
//! +-+-+-+-+-+-+-+-+-+-+-+-+-+-+-+-+-+-+-+-+-+-+-+-+-+-+-+-+-+-+-+-+
//! |V=2|P|X| CC    |M| PT          |      sequence number          |
//! +-+-+-+-+-+-+-+-+-+-+-+-+-+-+-+-+-+-+-+-+-+-+-+-+-+-+-+-+-+-+-+-+
//! |                           timestamp                           |
//! +-+-+-+-+-+-+-+-+-+-+-+-+-+-+-+-+-+-+-+-+-+-+-+-+-+-+-+-+-+-+-+-+
//! |                             SSRC                              |
//! +-+-+-+-+-+-+-+-+-+-+-+-+-+-+-+-+-+-+-+-+-+-+-+-+-+-+-+-+-+-+-+-+
//! ```

use vstd::prelude::*;

use crate::decimal;

verus! {

/// The length of a header without sources and extension.
pub const RTP_HEADER_MIN: usize = 12;

/// Why a packet has no usable header.
#[derive(Debug, Clone, Copy, PartialEq, Eq, Structural)]
pub enum RtpError {
    TooShort(usize),
    BadVersion(u8),
}

impl RtpError {
    /// What the error says.
    pub open spec fn text(self) -> Seq<char> {
        match self {
            RtpError::TooShort(n) => "packet too short ("@ + decimal::numeral(n as nat)
                + " bytes)"@,
            RtpError::BadVersion(v) => "RTP version "@ + decimal::numeral(v as nat)
                + ", expected 2"@,
        }
    }

    /// What the error says.
    pub fn message(&self) -> (r: String)
        ensures
            r@ == self.text(),
    {
        match *self {
            RtpError::TooShort(n) => {
                let mut s = "packet too short (".to_owned();
                decimal::push_unsigned(&mut s, n as u64);
                s.append(" bytes)");
                s
            },
            RtpError::BadVersion(v) => {
                let mut s = "RTP version ".to_owned();
                decimal::push_unsigned(&mut s, v as u64);
                s.append(", expected 2");
                s
            },
        }
    }
}

/// A header, but for the sources and the contents of the extension.
#[derive(Debug, Clone, Copy, PartialEq, Eq, Structural)]
pub struct RtpHeader {
    pub version: u8,
    pub padding: bool,
    pub extension: bool,
    pub csrc_count: u8,
    pub marker: bool,
    pub payload_type: u8,
    pub sequence: u16,
    pub timestamp: u32,
    pub ssrc: u32,
    /// The length of the extension in words of four bytes; 0 where there is none.
    pub extension_words: u16,
}

impl RtpHeader {
    /// The length of the header with its sources and its extension, if there is one.
    pub open spec fn size(self) -> nat {
        (12 + 4 * self.csrc_count + (if self.extension {
            4 + 4 * self.extension_words
        } else {
            0
        })) as nat
    }

    /// The length of the header in bytes, with its sources and its extension, if there is one.
    pub fn header_len(&self) -> (r: usize)
        ensures
            r == 12 + 4 * self.csrc_count + (if self.extension {
                4 + 4 * self.extension_words
            } else {
                0
            }),
    {
        let fixed: usize = RTP_HEADER_MIN + (self.csrc_count as usize) * 4;
        if self.extension {
            fixed + 4 + (self.extension_words as usize) * 4
        } else {
            fixed
        }
    }
}

/// The number in two bytes at `i`, the high one first.
pub open spec fn be16(data: Seq<u8>, i: int) -> u16 {
    (data[i] * 0x100 + data[i + 1]) as u16
}

/// The number in four bytes at `i`, the high one first.
pub open spec fn be32(data: Seq<u8>, i: int) -> u32 {
    (data[i] * 0x100_0000 + data[i + 1] * 0x1_0000 + data[i + 2] * 0x100 + data[i + 3]) as u32
}

/// The header that a packet starts with. The length of an extension stands in its second two bytes,
/// behind the sources.
pub open spec fn header_at(data: Seq<u8>) -> RtpHeader {
    let extension = (data[0] / 16) % 2 == 1;
    RtpHeader {
        version: data[0] / 64,
        padding: (data[0] / 32) % 2 == 1,
        extension,
        csrc_count: data[0] % 16,
        marker: data[1] / 128 == 1,
        payload_type: data[1] % 128,
        sequence: be16(data, 2),
        timestamp: be32(data, 4),
        ssrc: be32(data, 8),
        extension_words: if extension {
            be16(data, 12 + 4 * (data[0] % 16) + 2)
        } else {
            0
        },
    }
}

/// The header of a packet and where its payload starts: right behind the header.
pub open spec fn parsed(data: Seq<u8>) -> Result<(RtpHeader, nat), RtpError> {
    let h = header_at(data);
    if data.len() < 12 {
        Err(RtpError::TooShort(data.len() as usize))
    } else if h.version != 2 {
        Err(RtpError::BadVersion(h.version))
    } else if h.extension && data.len() < 12 + 4 * h.csrc_count + 4 {
        Err(RtpError::TooShort(data.len() as usize))
    } else if data.len() < h.size() {
        Err(RtpError::TooShort(data.len() as usize))
    } else {
        Ok((h, h.size()))
    }
}

fn read_be16(data: &[u8], i: usize) -> (r: u16)
    requires
        i + 2 <= data@.len(),
    ensures
        r == be16(data@, i as int),
{
    data[i] as u16 * 0x100 + data[i + 1] as u16
}

fn read_be32(data: &[u8], i: usize) -> (r: u32)
    requires
        i + 4 <= data@.len(),
    ensures
        r == be32(data@, i as int),
{
    data[i] as u32 * 0x100_0000 + data[i + 1] as u32 * 0x1_0000 + data[i + 2] as u32 * 0x100
        + data[i + 3] as u32
}

/// Parses the header of a packet. Gives the header and where the payload starts.
pub fn parse(data: &[u8]) -> (r: Result<(RtpHeader, usize), RtpError>)
    ensures
        r matches Ok(p) ==> parsed(data@) == Ok::<(RtpHeader, nat), RtpError>((p.0, p.1 as nat))
            && p.1 <= data@.len(),
        r matches Err(e) ==> parsed(data@) == Err::<(RtpHeader, nat), RtpError>(e),
{
    if data.len() < RTP_HEADER_MIN {
        return Err(RtpError::TooShort(data.len()));
    }
    let b0: u8 = data[0];
    let b1: u8 = data[1];
    proof {
        assert(((b0 >> 6) & 0x03u8) == b0 / 64) by (bit_vector);
        assert(((b0 >> 5) & 1u8) == (b0 / 32) % 2) by (bit_vector);
        assert(((b0 >> 4) & 1u8) == (b0 / 16) % 2) by (bit_vector);
        assert((b0 & 0x0Fu8) == b0 % 16) by (bit_vector);
        assert(((b1 >> 7) & 1u8) == b1 / 128) by (bit_vector);
        assert((b1 & 0x7Fu8) == b1 % 128) by (bit_vector);
    }
    let version: u8 = (b0 >> 6) & 0x03;
    if version != 2 {
        return Err(RtpError::BadVersion(version));
    }
    let padding = (b0 >> 5) & 1 != 0;
    let extension = (b0 >> 4) & 1 != 0;
    let csrc_count: u8 = b0 & 0x0F;
    let marker = (b1 >> 7) & 1 != 0;
    let payload_type: u8 = b1 & 0x7F;
    let sequence: u16 = read_be16(data, 2);
    let timestamp: u32 = read_be32(data, 4);
    let ssrc: u32 = read_be32(data, 8);
    let fixed: usize = RTP_HEADER_MIN + (csrc_count as usize) * 4;
    let mut extension_words: u16 = 0;
    if extension {
        if data.len() < fixed + 4 {
            return Err(RtpError::TooShort(data.len()));
        }
        extension_words = read_be16(data, fixed + 2);
    }
    let hdr = RtpHeader {
        version,
        padding,
        extension,
        csrc_count,
        marker,
        payload_type,
        sequence,
        timestamp,
        ssrc,
        extension_words,
    };
    let offset: usize = hdr.header_len();
    if offset > data.len() {
        return Err(RtpError::TooShort(data.len()));
    }
    Ok((hdr, offset))
}

// ---------------------------------------------------------------------------------------------
// Laws
// ---------------------------------------------------------------------------------------------

/// The payload of a packet that parses starts right behind its header, sources and extension
/// included.
pub proof fn law_payload_starts_behind_header(data: Seq<u8>)
    ensures
        parsed(data) matches Ok(p) ==> p.1 == 12 + 4 * p.0.csrc_count + (if p.0.extension {
            4 + 4 * p.0.extension_words
        } else {
            0
        }),
        parsed(data) matches Ok(p) ==> p.0.size() == p.1,
{
}

/// A packet that parses has a whole header: the payload starts at or before its end, and behind
/// the fixed part and the sources.
pub proof fn law_payload_lies_in_packet(data: Seq<u8>)
    ensures
        parsed(data) matches Ok(p) ==> p.0.version == 2 && 12 + 4 * p.0.csrc_count <= p.1
            <= data.len(),
{
}

/// What follows the header of a packet does not change how the header is read.
pub proof fn law_longer_packet_same_header(data: Seq<u8>, more: Seq<u8>)
    requires
        parsed(data) is Ok,
    ensures
        parsed(data + more) == parsed(data),
{
}

/// What the bytes of a header say. The first byte holds the version 2, the padding bit, the extension
/// bit and the number of sources, the second one the marker and the payload type; the sequence
/// number, the timestamp and the SSRC follow with the high byte first. The payload starts behind
/// twelve bytes, the sources of four bytes each and the extension.
pub proof fn law_bytes_of_a_header(data: Seq<u8>)
    ensures
        parsed(data) matches Ok((h, start)) ==> {
            &&& data.len() >= 12
            &&& h.version == 2
            &&& data[0] == 128 + (if h.padding {
                32int
            } else {
                0
            }) + (if h.extension {
                16int
            } else {
                0
            }) + h.csrc_count
            &&& h.csrc_count < 16
            &&& data[1] == h.payload_type + (if h.marker {
                128int
            } else {
                0
            })
            &&& h.payload_type < 128
            &&& h.sequence == data[2] * 0x100 + data[3]
            &&& h.timestamp == data[4] * 0x100_0000 + data[5] * 0x1_0000 + data[6] * 0x100
                + data[7]
            &&& h.ssrc == data[8] * 0x100_0000 + data[9] * 0x1_0000 + data[10] * 0x100 + data[11]
            &&& !h.extension ==> h.extension_words == 0 && start == 12 + 4 * h.csrc_count
            &&& h.extension ==> h.extension_words == data[14 + 4 * h.csrc_count] * 0x100 + data[15
                + 4 * h.csrc_count] && start == 16 + 4 * h.csrc_count + 4 * h.extension_words
            &&& start <= data.len()
        },
{
}

/// Which packets are refused, and why: those that are shorter than their header, and those of another
/// version than 2.
pub proof fn law_refused_packets(data: Seq<u8>)
    requires
        data.len() <= usize::MAX,
    ensures
        data.len() < 12 ==> parsed(data) == Err::<(RtpHeader, nat), RtpError>(
            RtpError::TooShort(data.len() as usize),
        ),
        data.len() >= 12 && !(128 <= data[0] <= 191) ==> parsed(data) == Err::<
            (RtpHeader, nat),
            RtpError,
        >(RtpError::BadVersion(data[0] / 64)),
        data.len() >= 12 && 128 <= data[0] <= 191 ==> {
            let sources = data[0] % 16;
            let extended = (data[0] / 16) % 2 == 1;
            let words = data[14 + 4 * sources] * 0x100 + data[15 + 4 * sources];
            let fits = if extended {
                data.len() >= 16 + 4 * sources && data.len() >= 16 + 4 * sources + 4 * words
            } else {
                data.len() >= 12 + 4 * sources
            };
            &&& fits ==> parsed(data) is Ok
            &&& !fits ==> parsed(data) == Err::<(RtpHeader, nat), RtpError>(
                RtpError::TooShort(data.len() as usize),
            )
        },
{
}

/// The length of a header is that of its fixed part, its sources and its extension.
pub proof fn law_size_of_a_header(h: RtpHeader)
    ensures
        !h.extension ==> h.size() == 12 + 4 * h.csrc_count,
        h.extension ==> h.size() == 16 + 4 * h.csrc_count + 4 * h.extension_words,
{
}

/// What an error says names what was met.
pub proof fn law_error_texts(n: usize, v: u8)
    ensures
        RtpError::TooShort(n).text() == "packet too short ("@ + decimal::numeral(n as nat)
            + " bytes)"@,
        RtpError::BadVersion(v).text() == "RTP version "@ + decimal::numeral(v as nat)
            + ", expected 2"@,
{
}

} // verus!
