//! Counter data model: transport protocols, traffic directions, and the
//! packet/byte counters kept for each tracked address.

use vstd::prelude::*;

verus! {

/// Transport-protocol classification of a counted frame.
#[derive(Clone, Copy, Debug, PartialEq, Eq, Structural)]
pub enum Protocol {
    Icmp,
    Tcp,
    Udp,
    Other,
}

/// Direction of a counted frame relative to its local endpoint.
#[derive(Clone, Copy, Debug, PartialEq, Eq, Structural)]
pub enum Direction {
    Inbound,
    Outbound,
}

/// Which of the two values of a counter a metrics sample reports.
#[derive(Clone, Copy, Debug, PartialEq, Eq, Structural)]
pub enum ValueType {
    Packets,
    Bytes,
}

impl Protocol {
    /// The classification for an IPv4 protocol field value.
    pub open spec fn spec_from_ip_proto(p: u8) -> Protocol {
        if p == 1 {
            Protocol::Icmp
        } else if p == 6 {
            Protocol::Tcp
        } else if p == 17 {
            Protocol::Udp
        } else {
            Protocol::Other
        }
    }

    /// Classify an IPv4 protocol field value: 1 is ICMP, 6 is TCP,
    /// 17 is UDP, and everything else is counted as "other".
    pub fn from_ip_proto(p: u8) -> (r: Protocol)
        ensures
            r == Protocol::spec_from_ip_proto(p),
    {
        match p {
            1 => Protocol::Icmp,
            6 => Protocol::Tcp,
            17 => Protocol::Udp,
            _ => Protocol::Other,
        }
    }

    /// The label under which this protocol appears in exported metrics.
    pub open spec fn spec_label(self) -> Seq<char> {
        match self {
            Protocol::Icmp => "icmp"@,
            Protocol::Tcp => "tcp"@,
            Protocol::Udp => "udp"@,
            Protocol::Other => "other"@,
        }
    }

    /// The metrics label of this protocol.
    pub fn to_str(&self) -> (r: &'static str)
        ensures
            r@ == self.spec_label(),
    {
        match self {
            Protocol::Icmp => "icmp",
            Protocol::Tcp => "tcp",
            Protocol::Udp => "udp",
            Protocol::Other => "other",
        }
    }
}

impl Direction {
    /// The label under which this direction appears in exported metrics.
    pub open spec fn spec_label(self) -> Seq<char> {
        match self {
            Direction::Inbound => "inbound"@,
            Direction::Outbound => "outbound"@,
        }
    }

    /// The metrics label of this direction.
    pub fn to_str(&self) -> (r: &'static str)
        ensures
            r@ == self.spec_label(),
    {
        match self {
            Direction::Inbound => "inbound",
            Direction::Outbound => "outbound",
        }
    }
}

impl ValueType {
    /// The label under which this value kind appears in exported metrics.
    pub open spec fn spec_label(self) -> Seq<char> {
        match self {
            ValueType::Packets => "packets"@,
            ValueType::Bytes => "bytes"@,
        }
    }

    /// The metrics label of this value kind.
    pub fn to_str(&self) -> (r: &'static str)
        ensures
            r@ == self.spec_label(),
    {
        match self {
            ValueType::Packets => "packets",
            ValueType::Bytes => "bytes",
        }
    }
}

/// Addition that wraps around at the 64-bit boundary, matching the
/// behaviour the counters are specified to have on overflow.
pub open spec fn wrap_add64(a: u64, b: u64) -> u64 {
    if a + b > u64::MAX {
        (a + b - 0x1_0000_0000_0000_0000) as u64
    } else {
        (a + b) as u64
    }
}

/// One packet counter and one byte counter.
#[derive(Clone, Copy, Debug, PartialEq, Eq, Structural)]
pub struct BaseCounters {
    pub pkts: u64,
    pub bytes: u64,
}

impl BaseCounters {
    pub open spec fn spec_zero() -> BaseCounters {
        BaseCounters { pkts: 0, bytes: 0 }
    }

    /// The counters after one more frame of `len` wire bytes.
    pub open spec fn spec_bumped(self, len: u64) -> BaseCounters {
        BaseCounters { pkts: wrap_add64(self.pkts, 1), bytes: wrap_add64(self.bytes, len) }
    }

    pub fn new() -> (r: BaseCounters)
        ensures
            r == BaseCounters::spec_zero(),
    {
        BaseCounters { pkts: 0, bytes: 0 }
    }

    /// Count one frame of `len` wire bytes.
    pub fn bump(&mut self, len: u64)
        ensures
            *final(self) == old(self).spec_bumped(len),
    {
        self.pkts = self.pkts.wrapping_add(1);
        self.bytes = self.bytes.wrapping_add(len);
    }
}

/// Counters split by traffic direction.
#[derive(Clone, Copy, Debug, PartialEq, Eq, Structural)]
pub struct DirectionCounters {
    pub inbound: BaseCounters,
    pub outbound: BaseCounters,
}

impl DirectionCounters {
    pub open spec fn spec_zero() -> DirectionCounters {
        DirectionCounters {
            inbound: BaseCounters::spec_zero(),
            outbound: BaseCounters::spec_zero(),
        }
    }

    /// The counters of one direction.
    pub open spec fn spec_get(self, d: Direction) -> BaseCounters {
        match d {
            Direction::Inbound => self.inbound,
            Direction::Outbound => self.outbound,
        }
    }

    /// The counters after one more frame of `len` wire bytes in direction `d`.
    pub open spec fn spec_bumped(self, d: Direction, len: u64) -> DirectionCounters {
        match d {
            Direction::Inbound => DirectionCounters {
                inbound: self.inbound.spec_bumped(len),
                outbound: self.outbound,
            },
            Direction::Outbound => DirectionCounters {
                inbound: self.inbound,
                outbound: self.outbound.spec_bumped(len),
            },
        }
    }

    pub fn new() -> (r: DirectionCounters)
        ensures
            r == DirectionCounters::spec_zero(),
    {
        DirectionCounters { inbound: BaseCounters::new(), outbound: BaseCounters::new() }
    }

    /// Count one frame of `len` wire bytes in direction `d`.
    pub fn bump(&mut self, d: Direction, len: u64)
        ensures
            *final(self) == old(self).spec_bumped(d, len),
    {
        match d {
            Direction::Inbound => self.inbound.bump(len),
            Direction::Outbound => self.outbound.bump(len),
        }
    }

    /// The counters of one direction.
    pub fn get(&self, d: Direction) -> (r: BaseCounters)
        ensures
            r == self.spec_get(d),
    {
        match d {
            Direction::Inbound => self.inbound,
            Direction::Outbound => self.outbound,
        }
    }
}

/// Counters split by transport protocol, then by direction.
#[derive(Clone, Copy, Debug, PartialEq, Eq, Structural)]
pub struct ProtocolCounters {
    pub icmp: DirectionCounters,
    pub tcp: DirectionCounters,
    pub udp: DirectionCounters,
    pub other: DirectionCounters,
}

impl ProtocolCounters {
    pub open spec fn spec_zero() -> ProtocolCounters {
        ProtocolCounters {
            icmp: DirectionCounters::spec_zero(),
            tcp: DirectionCounters::spec_zero(),
            udp: DirectionCounters::spec_zero(),
            other: DirectionCounters::spec_zero(),
        }
    }

    /// The counters of one protocol.
    pub open spec fn spec_get(self, p: Protocol) -> DirectionCounters {
        match p {
            Protocol::Icmp => self.icmp,
            Protocol::Tcp => self.tcp,
            Protocol::Udp => self.udp,
            Protocol::Other => self.other,
        }
    }

    /// The packet/byte pair for one protocol and direction.
    pub open spec fn spec_get_base(self, p: Protocol, d: Direction) -> BaseCounters {
        self.spec_get(p).spec_get(d)
    }

    /// The counters after one more frame of `len` wire bytes under
    /// protocol `p` and direction `d`: exactly that leaf is bumped,
    /// every other leaf is unchanged.
    pub open spec fn spec_bumped(self, p: Protocol, d: Direction, len: u64) -> ProtocolCounters {
        match p {
            Protocol::Icmp => ProtocolCounters { icmp: self.icmp.spec_bumped(d, len), ..self },
            Protocol::Tcp => ProtocolCounters { tcp: self.tcp.spec_bumped(d, len), ..self },
            Protocol::Udp => ProtocolCounters { udp: self.udp.spec_bumped(d, len), ..self },
            Protocol::Other => ProtocolCounters { other: self.other.spec_bumped(d, len), ..self },
        }
    }

    pub fn new() -> (r: ProtocolCounters)
        ensures
            r == ProtocolCounters::spec_zero(),
    {
        ProtocolCounters {
            icmp: DirectionCounters::new(),
            tcp: DirectionCounters::new(),
            udp: DirectionCounters::new(),
            other: DirectionCounters::new(),
        }
    }

    /// Count one frame of `len` wire bytes under protocol `p`,
    /// direction `d`.
    pub fn bump(&mut self, p: Protocol, d: Direction, len: u64)
        ensures
            *final(self) == old(self).spec_bumped(p, d, len),
    {
        match p {
            Protocol::Icmp => self.icmp.bump(d, len),
            Protocol::Tcp => self.tcp.bump(d, len),
            Protocol::Udp => self.udp.bump(d, len),
            Protocol::Other => self.other.bump(d, len),
        }
    }

    /// Law: a counted frame touches exactly one leaf. Bumping protocol
    /// `p`, direction `d` increments that leaf's packet count by one
    /// and its byte count by `len`, wrapping at 64 bits, and leaves
    /// every other protocol/direction leaf unchanged.
    pub proof fn lemma_bump_exact(pc: ProtocolCounters, p: Protocol, d: Direction, len: u64)
        ensures
            pc.spec_bumped(p, d, len).spec_get_base(p, d) == pc.spec_get_base(p, d).spec_bumped(
                len,
            ),
            forall|q: Protocol, e: Direction|
                q != p || e != d ==> pc.spec_bumped(p, d, len).spec_get_base(q, e)
                    == pc.spec_get_base(q, e),
    {
    }

    /// The counters of one protocol.
    pub fn get(&self, p: Protocol) -> (r: DirectionCounters)
        ensures
            r == self.spec_get(p),
    {
        match p {
            Protocol::Icmp => self.icmp,
            Protocol::Tcp => self.tcp,
            Protocol::Udp => self.udp,
            Protocol::Other => self.other,
        }
    }
}

} // verus!
