use ipstats::counters::{Direction, Protocol, ValueType};
use ipstats::engine::Engine;
use ipstats::frame::classify_frame;
use ipstats::subnet::parse_subnets;

fn ip(a: u8, b: u8, c: u8, d: u8) -> u32 {
    ((a as u32) << 24) | ((b as u32) << 16) | ((c as u32) << 8) | (d as u32)
}

/// A minimal Ethernet+IPv4 frame with the fields the classifier reads.
fn frame(proto: u8, src: u32, dst: u32) -> Vec<u8> {
    let mut f = vec![0u8; 34];
    f[12] = 0x08;
    f[13] = 0x00;
    f[14 + 9] = proto;
    f[14 + 12..14 + 16].copy_from_slice(&src.to_be_bytes());
    f[14 + 16..14 + 20].copy_from_slice(&dst.to_be_bytes());
    f
}

fn engine(locals: &str, excluded: Option<&str>, max: usize) -> Engine {
    let locals = parse_subnets(locals).unwrap();
    let excluded = excluded.map(|e| parse_subnets(e).unwrap());
    Engine::new(locals, excluded, max)
}

#[test]
fn classifier_extracts_fixed_fields() {
    let f = frame(6, ip(10, 0, 0, 5), ip(8, 8, 8, 8));
    let info = classify_frame(&f).unwrap();
    assert_eq!(info.protocol, Protocol::Tcp);
    assert_eq!(info.source, ip(10, 0, 0, 5));
    assert_eq!(info.dest, ip(8, 8, 8, 8));
}

#[test]
fn classifier_skips_short_and_non_ipv4_frames() {
    let f = frame(6, 1, 2);
    assert!(classify_frame(&f[..33]).is_none());
    let mut g = frame(6, 1, 2);
    g[13] = 0x06; // not the IPv4 ethertype
    assert!(classify_frame(&g).is_none());
    assert!(classify_frame(&[]).is_none());
}

#[test]
fn protocol_mapping() {
    let mk = |p: u8| {
        classify_frame(&frame(p, 1, 2)).unwrap().protocol
    };
    assert_eq!(mk(1), Protocol::Icmp);
    assert_eq!(mk(6), Protocol::Tcp);
    assert_eq!(mk(17), Protocol::Udp);
    assert_eq!(mk(2), Protocol::Other);
    assert_eq!(mk(255), Protocol::Other);
}

#[test]
fn labels() {
    assert_eq!(Protocol::Icmp.to_str(), "icmp");
    assert_eq!(Protocol::Tcp.to_str(), "tcp");
    assert_eq!(Protocol::Udp.to_str(), "udp");
    assert_eq!(Protocol::Other.to_str(), "other");
    assert_eq!(Direction::Inbound.to_str(), "inbound");
    assert_eq!(Direction::Outbound.to_str(), "outbound");
    assert_eq!(ValueType::Packets.to_str(), "packets");
    assert_eq!(ValueType::Bytes.to_str(), "bytes");
}

#[test]
fn first_iteration_publishes_an_empty_snapshot() {
    let mut e = engine("10.0.0.0/24", None, 16);
    let f = frame(6, ip(10, 0, 0, 5), ip(8, 8, 8, 8));
    let snap = e.step(Some((&f, 100))).expect("first iteration publishes");
    assert_eq!(snap.entries.len(), 0);
    assert!(snap.overflow.is_none());
    // the frame itself was counted in the working store
    assert_eq!(e.stats.entries.len(), 1);
}

#[test]
fn publish_cadence_is_every_64_iterations() {
    let mut e = engine("10.0.0.0/24", None, 16);
    let f = frame(6, ip(10, 0, 0, 5), ip(8, 8, 8, 8));
    assert!(e.step(Some((&f, 100))).is_some());
    for _ in 0..63 {
        assert!(e.step(Some((&f, 100))).is_none());
    }
    // 64 frames processed; the 65th iteration publishes them all
    let snap = e.step(None).expect("publish at the interval boundary");
    let c = snap.get(Some(ip(10, 0, 0, 5))).unwrap();
    let out = c.get(Protocol::Tcp).get(Direction::Outbound);
    assert_eq!(out.pkts, 64);
    assert_eq!(out.bytes, 6400);
    for _ in 0..63 {
        assert!(e.step(None).is_none());
    }
    assert!(e.step(None).is_some());
}

#[test]
fn direction_correctness() {
    let mut e = engine("10.0.0.0/24", None, 16);
    let s = ip(10, 0, 0, 5);
    let f = frame(6, s, ip(8, 8, 8, 8));
    e.step(Some((&f, 123)));
    let c = e.stats.get(Some(s)).unwrap();
    let out = c.get(Protocol::Tcp).get(Direction::Outbound);
    assert_eq!(out.pkts, 1);
    assert_eq!(out.bytes, 123);
    // no inbound counter changes, nor any other protocol
    for p in [Protocol::Icmp, Protocol::Tcp, Protocol::Udp, Protocol::Other] {
        let inb = c.get(p).get(Direction::Inbound);
        assert_eq!(inb.pkts, 0);
        assert_eq!(inb.bytes, 0);
        if p != Protocol::Tcp {
            let ob = c.get(p).get(Direction::Outbound);
            assert_eq!(ob.pkts, 0);
            assert_eq!(ob.bytes, 0);
        }
    }
    // the remote endpoint got no entry of its own
    assert!(e.stats.get(Some(ip(8, 8, 8, 8))).is_none());
}

#[test]
fn discarded_frames_touch_no_counter() {
    let mut e = engine("10.0.0.0/24", Some("8.8.8.0/24"), 16);
    // both endpoints local
    let f1 = frame(6, ip(10, 0, 0, 1), ip(10, 0, 0, 2));
    // both endpoints remote
    let f2 = frame(6, ip(9, 9, 9, 9), ip(9, 9, 9, 10));
    // destination excluded
    let f3 = frame(6, ip(10, 0, 0, 1), ip(8, 8, 8, 8));
    // source excluded
    let f4 = frame(6, ip(8, 8, 8, 8), ip(10, 0, 0, 1));
    // unparseable
    let f5 = vec![0u8; 10];
    for f in [&f1, &f2, &f3, &f4, &f5] {
        e.step(Some((f, 500)));
    }
    assert_eq!(e.stats.entries.len(), 0);
    assert!(e.stats.overflow.is_none());
}

#[test]
fn cardinality_bound_first_seen_keep_entries() {
    let mut e = engine("10.0.0.0/24", None, 2);
    let remote = ip(8, 8, 8, 8);
    for d in 1..=5u8 {
        let f = frame(17, ip(10, 0, 0, d), remote);
        e.step(Some((&f, 10)));
    }
    // exactly two concrete entries, the first two addresses seen, in order
    assert_eq!(e.stats.entries.len(), 2);
    assert_eq!(e.stats.entries[0].0, ip(10, 0, 0, 1));
    assert_eq!(e.stats.entries[1].0, ip(10, 0, 0, 2));
    let ovf = e.stats.overflow.expect("overflow bucket exists");
    assert_eq!(ovf.udp.outbound.pkts, 3);
    // heavy later traffic never evicts an existing entry
    for _ in 0..10 {
        let f = frame(17, ip(10, 0, 0, 5), remote);
        e.step(Some((&f, 10)));
    }
    let f = frame(17, ip(10, 0, 0, 1), remote);
    e.step(Some((&f, 10)));
    assert_eq!(e.stats.entries.len(), 2);
    let c1 = e.stats.get(Some(ip(10, 0, 0, 1))).unwrap();
    assert_eq!(c1.udp.outbound.pkts, 2);
    assert_eq!(e.stats.overflow.unwrap().udp.outbound.pkts, 13);
}

#[test]
fn end_to_end_scenario() {
    let mut e = engine("10.0.0.0/24", None, 2);
    let a = frame(6, ip(10, 0, 0, 5), ip(8, 8, 8, 8));
    let b = frame(17, ip(8, 8, 4, 4), ip(10, 0, 0, 5));
    let c = frame(1, ip(10, 0, 0, 9), ip(8, 8, 8, 8));
    let d = frame(6, ip(10, 0, 0, 20), ip(8, 8, 8, 8));
    e.step(Some((&a, 100)));
    e.step(Some((&b, 60)));
    e.step(Some((&c, 40)));
    e.step(Some((&d, 50)));

    let c5 = e.stats.get(Some(ip(10, 0, 0, 5))).unwrap();
    assert_eq!(c5.tcp.outbound.pkts, 1);
    assert_eq!(c5.tcp.outbound.bytes, 100);
    assert_eq!(c5.udp.inbound.pkts, 1);
    assert_eq!(c5.udp.inbound.bytes, 60);
    assert_eq!(c5.tcp.inbound.pkts, 0);
    assert_eq!(c5.icmp.outbound.pkts, 0);

    let c9 = e.stats.get(Some(ip(10, 0, 0, 9))).unwrap();
    assert_eq!(c9.icmp.outbound.pkts, 1);
    assert_eq!(c9.icmp.outbound.bytes, 40);

    assert!(e.stats.get(Some(ip(10, 0, 0, 20))).is_none());
    let ovf = e.stats.get(None).unwrap();
    assert_eq!(ovf.tcp.outbound.pkts, 1);
    assert_eq!(ovf.tcp.outbound.bytes, 50);
}

#[test]
fn failed_reads_advance_the_cadence_but_count_nothing() {
    let mut e = engine("10.0.0.0/24", None, 4);
    assert!(e.step(None).is_some());
    for _ in 0..63 {
        assert!(e.step(None).is_none());
    }
    assert!(e.step(None).is_some());
    assert_eq!(e.stats.entries.len(), 0);
}

#[test]
fn counters_wrap_at_the_64_bit_boundary() {
    let mut b = ipstats::counters::BaseCounters::new();
    b.pkts = u64::MAX;
    b.bytes = u64::MAX - 2;
    b.bump(5);
    assert_eq!(b.pkts, 0);
    assert_eq!(b.bytes, 2);
}

#[test]
fn sorted_entries_order_by_address() {
    let mut e2 = engine("10.0.0.0/8", None, 16);
    for d in [9u8, 1, 5] {
        let f = frame(6, ip(10, 0, 0, d), ip(8, 8, 8, 8));
        e2.step(Some((&f, 10)));
    }
    let sorted = e2.stats.sorted_entries();
    let keys: Vec<u32> = sorted.iter().map(|p| p.0).collect();
    assert_eq!(keys, vec![ip(10, 0, 0, 1), ip(10, 0, 0, 5), ip(10, 0, 0, 9)]);
    // unsorted insertion order is preserved in the store itself
    assert_eq!(e2.stats.entries[0].0, ip(10, 0, 0, 9));
}
