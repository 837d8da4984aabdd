use ipstats::subnet::parse_subnets;

fn ip(a: u8, b: u8, c: u8, d: u8) -> u32 {
    ((a as u32) << 24) | ((b as u32) << 16) | ((c as u32) << 8) | (d as u32)
}

#[test]
fn parse_single_network() {
    let set = parse_subnets("10.0.0.0/24").unwrap();
    assert_eq!(set.nets.len(), 1);
    assert_eq!(set.nets[0], (ip(10, 0, 0, 0), 0xFFFF_FF00));
    assert!(set.matches(ip(10, 0, 0, 5)));
    assert!(set.matches(ip(10, 0, 0, 255)));
    assert!(!set.matches(ip(10, 0, 1, 5)));
    assert!(!set.matches(ip(8, 8, 8, 8)));
}

#[test]
fn parse_normalizes_host_bits() {
    let set = parse_subnets("10.0.0.5/24").unwrap();
    assert_eq!(set.nets[0], (ip(10, 0, 0, 0), 0xFFFF_FF00));
}

#[test]
fn missing_prefix_means_single_host() {
    let set = parse_subnets("192.168.1.7").unwrap();
    assert_eq!(set.nets[0], (ip(192, 168, 1, 7), 0xFFFF_FFFF));
    assert!(set.matches(ip(192, 168, 1, 7)));
    assert!(!set.matches(ip(192, 168, 1, 6)));
    assert!(!set.matches(ip(192, 168, 1, 8)));
}

#[test]
fn slash_32_matches_only_exact_address() {
    let set = parse_subnets("1.2.3.4/32").unwrap();
    assert!(set.matches(ip(1, 2, 3, 4)));
    assert!(!set.matches(ip(1, 2, 3, 5)));
    assert!(!set.matches(ip(129, 2, 3, 4)));
}

#[test]
fn slash_0_matches_every_address() {
    let set = parse_subnets("0.0.0.0/0").unwrap();
    assert!(set.matches(0));
    assert!(set.matches(u32::MAX));
    assert!(set.matches(ip(8, 8, 8, 8)));
    let set2 = parse_subnets("9.9.9.9/0").unwrap();
    assert!(set2.matches(ip(1, 1, 1, 1)));
}

#[test]
fn comma_separated_list_matches_any() {
    let set = parse_subnets("10.0.0.0/24,192.168.1.0/28").unwrap();
    assert_eq!(set.nets.len(), 2);
    assert!(set.matches(ip(10, 0, 0, 99)));
    assert!(set.matches(ip(192, 168, 1, 15)));
    assert!(!set.matches(ip(192, 168, 1, 16)));
    assert!(!set.matches(ip(172, 16, 0, 1)));
}

#[test]
fn masked_bit_outside_prefix_does_not_match() {
    let set = parse_subnets("10.1.0.0/16").unwrap();
    assert!(set.matches(ip(10, 1, 200, 3)));
    assert!(!set.matches(ip(10, 0, 200, 3)));
    assert!(!set.matches(ip(11, 1, 200, 3)));
}

#[test]
fn prefix_with_leading_zeros_is_accepted() {
    let set = parse_subnets("1.2.3.4/032").unwrap();
    assert_eq!(set.nets[0], (ip(1, 2, 3, 4), 0xFFFF_FFFF));
}

#[test]
fn malformed_lists_fail_entirely() {
    assert!(parse_subnets("").is_none());
    assert!(parse_subnets("10.0.0/24").is_none());
    assert!(parse_subnets("10.0.0.0.1/24").is_none());
    assert!(parse_subnets("10.0.0.256").is_none());
    assert!(parse_subnets("10.0.0.0/33").is_none());
    assert!(parse_subnets("10.0.0.0/x").is_none());
    assert!(parse_subnets("10.0.0.0/").is_none());
    assert!(parse_subnets("10.0.0.0/8/9").is_none());
    assert!(parse_subnets("a.b.c.d").is_none());
    assert!(parse_subnets("10.0.0.1,").is_none());
    assert!(parse_subnets(",10.0.0.1").is_none());
    assert!(parse_subnets("10.0.0.1,bad").is_none());
    assert!(parse_subnets("01.2.3.4").is_none());
    assert!(parse_subnets("1.2.3.-4").is_none());
    assert!(parse_subnets("1.2.3.4/1000").is_none());
}

#[test]
fn one_bad_segment_poisons_the_whole_list() {
    assert!(parse_subnets("10.0.0.0/24,10.0.1").is_none());
    assert!(parse_subnets("10.0.1,10.0.0.0/24").is_none());
}
