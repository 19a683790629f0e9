//! The header of an IPv4 packet.
use bytes::Bytes;
use vstd::prelude::*;

use crate::addr::Ipv4Addr;
use crate::octets::octets;
use crate::octets::octets_of;

verus! {

/// The fields of an IPv4 header that routing looks at.
#[derive(Clone, Copy, Debug, PartialEq, Eq)]
pub struct Ipv4Packet {
    /// How many octets the packet has.
    pub packet_length: usize,
    /// How many octets the packet says it has.
    pub total_length: usize,
    pub ttl: u8,
    pub src_ip: Ipv4Addr,
    pub dest_ip: Ipv4Addr,
}

/// Why some octets are no IPv4 packet.
#[derive(Clone, Copy, Debug, PartialEq, Eq, Structural)]
pub enum ParseError {
    TooSmallPacket,
    IncorrectIpVersion,
}

impl ParseError {
    /// What went wrong, for a reader.
    pub open spec fn text(self) -> Seq<char> {
        match self {
            ParseError::IncorrectIpVersion => "unsupported IP version (only IPv4 is allowed)"@,
            ParseError::TooSmallPacket => "packet is too small to contain a valid IPv4 header"@,
        }
    }

    /// What went wrong, for a reader.
    pub fn message(&self) -> (s: String)
        ensures
            s@ == self.text(),
    {
        match self {
            ParseError::IncorrectIpVersion => {
                "unsupported IP version (only IPv4 is allowed)".to_owned()
            },
            ParseError::TooSmallPacket => {
                "packet is too small to contain a valid IPv4 header".to_owned()
            },
        }
    }
}

impl Ipv4Packet {
    /// The header that some octets begin with: 20 octets at least, the upper half of the first
    /// being the version 4.
    pub open spec fn of(octets: Seq<u8>) -> Result<Ipv4Packet, ParseError> {
        if octets.len() < 20 {
            Err(ParseError::TooSmallPacket)
        } else if octets[0] / 16 != 4 {
            Err(ParseError::IncorrectIpVersion)
        } else {
            Ok(
                Ipv4Packet {
                    packet_length: octets.len() as usize,
                    total_length: (octets[2] * 256 + octets[3]) as usize,
                    ttl: octets[8],
                    src_ip: Ipv4Addr::of(octets[12], octets[13], octets[14], octets[15]),
                    dest_ip: Ipv4Addr::of(octets[16], octets[17], octets[18], octets[19]),
                },
            )
        }
    }

    /// Reads the header of a packet.
    pub fn new(packet: &Bytes) -> (r: Result<Ipv4Packet, ParseError>)
        ensures
            r == Ipv4Packet::of(octets_of(*packet)),
            r matches Ok(header) ==> header.packet_length == octets_of(*packet).len(),
    {
        let p = octets(packet);
        if p.len() < 20 {
            return Err(ParseError::TooSmallPacket);
        }
        let first = p[0];
        let ip_version: u8 = first >> 4;
        assert(first >> 4 == first / 16) by (bit_vector);
        if ip_version != 4 {
            return Err(ParseError::IncorrectIpVersion);
        }
        let high = p[2] as usize;
        let low = p[3] as usize;
        let total_length: usize = (high << 8) | low;
        assert((high << 8) | low == high * 256 + low) by (bit_vector)
            requires
                high < 256,
                low < 256,
        ;
        Ok(
            Ipv4Packet {
                packet_length: p.len(),
                total_length,
                ttl: p[8],
                src_ip: Ipv4Addr::new(p[12], p[13], p[14], p[15]),
                dest_ip: Ipv4Addr::new(p[16], p[17], p[18], p[19]),
            },
        )
    }
}

/// The number that four octets from a place on stand for, the first counting most.
pub open spec fn word_at(octets: Seq<u8>, at: int) -> int {
    octets[at] * 0x100_0000 + octets[at + 1] * 0x1_0000 + octets[at + 2] * 0x100 + octets[at + 3]
}

/// Octets are no packet exactly if they are fewer than 20 or do not say version 4; of a packet, the
/// length, the time to live and the two addresses are those in octets 2 and 3, in octet 8, and from
/// octets 12 and 16 on. No other octet counts.
pub proof fn header_is_in_its_octets(octets: Seq<u8>)
    ensures
        Ipv4Packet::of(octets) == Err::<Ipv4Packet, ParseError>(ParseError::TooSmallPacket)
            <==> octets.len() < 20,
        Ipv4Packet::of(octets) == Err::<Ipv4Packet, ParseError>(ParseError::IncorrectIpVersion)
            <==> octets.len() >= 20 && !(0x40 <= octets[0] <= 0x4F),
        octets.len() >= 20 && 0x40 <= octets[0] <= 0x4F ==> (Ipv4Packet::of(octets) matches Ok(
            header,
        ) && {
            &&& header.total_length == octets[2] * 0x100 + octets[3]
            &&& header.ttl == octets[8]
            &&& header.src_ip.bits == word_at(octets, 12)
            &&& header.dest_ip.bits == word_at(octets, 16)
            &&& octets.len() <= usize::MAX ==> header.packet_length == octets.len()
        }),
{
}

} // verus!
