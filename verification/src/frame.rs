//! Frame classification: deciding whether a captured link-layer frame
//! is a parseable IPv4-over-Ethernet frame and extracting its
//! addresses and transport protocol.

use vstd::prelude::*;

use crate::counters::Protocol;

verus! {

/// Minimum classifiable capture: a 14-byte Ethernet header followed by
/// at least the 20 fixed bytes of an IPv4 header.
pub const MIN_FRAME_LEN: usize = 34;

/// The Ethernet type field value of IPv4.
pub const ETHER_IPV4: u16 = 0x0800;

/// A big-endian 16-bit value read from two bytes.
pub open spec fn be16(b0: u8, b1: u8) -> u16 {
    (b0 * 256 + b1) as u16
}

/// A big-endian 32-bit value read from four bytes.
pub open spec fn be32(b0: u8, b1: u8, b2: u8, b3: u8) -> u32 {
    (((b0 * 256 + b1) * 256 + b2) * 256 + b3) as u32
}

/// What the classifier extracts from an accepted frame.
#[derive(Clone, Copy, Debug, PartialEq, Eq, Structural)]
pub struct FrameInfo {
    /// Transport protocol, from the IPv4 protocol field.
    pub protocol: Protocol,
    /// Source address.
    pub source: u32,
    /// Destination address.
    pub dest: u32,
}

/// The classification of a captured frame: `None` for frames that are
/// too short or not IPv4-over-Ethernet, which are skipped silently;
/// otherwise the protocol and addresses read at the fixed IPv4 header
/// offsets. The declared IP header length is deliberately not
/// consulted: the fields sit in the 20-byte minimum header slice.
pub open spec fn spec_classify(data: Seq<u8>) -> Option<FrameInfo> {
    if data.len() < MIN_FRAME_LEN {
        None
    } else if be16(data[12], data[13]) != ETHER_IPV4 {
        None
    } else {
        Some(
            FrameInfo {
                protocol: Protocol::spec_from_ip_proto(data[23]),
                source: be32(data[26], data[27], data[28], data[29]),
                dest: be32(data[30], data[31], data[32], data[33]),
            },
        )
    }
}

/// Classify one captured frame.
pub fn classify_frame(data: &[u8]) -> (r: Option<FrameInfo>)
    ensures
        r == spec_classify(data@),
{
    if data.len() < MIN_FRAME_LEN {
        return None;
    }
    let ety: u16 = (data[12] as u16) * 256 + (data[13] as u16);
    if ety != ETHER_IPV4 {
        return None;
    }
    let proto = Protocol::from_ip_proto(data[23]);
    let source: u32 = (((data[26] as u32) * 256 + (data[27] as u32)) * 256 + (data[28] as u32))
        * 256 + (data[29] as u32);
    let dest: u32 = (((data[30] as u32) * 256 + (data[31] as u32)) * 256 + (data[32] as u32)) * 256
        + (data[33] as u32);
    Some(FrameInfo { protocol: proto, source, dest })
}

} // verus!
