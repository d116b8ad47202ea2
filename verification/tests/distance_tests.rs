use relaytool::commands::{format_distances, LikeCommand, SybilHunterCommand};
use relaytool::distance::{levenshtein as lev_verified, rank_top, sort_pairs, take_prefix};
use relaytool::policy::parse_portpolicy;
use relaytool::relay::{OrPort, RelayFlags, RelayRecord, RelayWeight, Snapshot};

fn relay(nickname: &str, rsa_hex: &str, port: u16) -> RelayRecord {
    RelayRecord {
        nickname: String::from(nickname),
        rsa_hex: String::from(rsa_hex),
        ed_id: String::from("mGyPPGMnhl6oF4tCuDukaqmsNq4QdL2cHQJ2memBpkY"),
        orports: vec![OrPort { v6: false, ip: 0x01020304, port }],
        flags: RelayFlags { bits: 0x18 },
        version: Some(String::from("0.4.8.9")),
        weight: RelayWeight::Measured(120),
        ipv4_policy: parse_portpolicy("reject 1-65535").unwrap(),
        ipv6_policy: parse_portpolicy("reject 1-65535").unwrap(),
        family: Vec::new(),
    }
}

#[test]
fn distance_has_known_values() {
    assert_eq!(lev_verified("kitten", "sitting"), 3);
    assert_eq!(lev_verified("flaw", "lawn"), 2);
    assert_eq!(lev_verified("", "abc"), 3);
    assert_eq!(lev_verified("abc", ""), 3);
}

#[test]
fn distance_is_symmetric_and_zero_iff_equal() {
    let pairs = [("moria1", "moria2"), ("", "x"), ("relay", "relay"), ("abcd", "dcba")];
    for (a, b) in pairs {
        assert_eq!(lev_verified(a, b), lev_verified(b, a));
        assert_eq!(lev_verified(a, b) == 0, a == b);
        // cross-check against the independent implementation
        assert_eq!(lev_verified(a, b), levenshtein::levenshtein(a, b));
    }
}

#[test]
fn sorting_is_ascending_and_keeps_snapshot_order_on_ties() {
    let pairs = vec![(3usize, 0usize), (1, 1), (3, 2), (0, 3), (1, 4)];
    let sorted = sort_pairs(pairs);
    assert_eq!(sorted, vec![(0, 3), (1, 1), (1, 4), (3, 0), (3, 2)]);
    let top = take_prefix(&sorted, 3);
    assert_eq!(top, vec![(0, 3), (1, 1), (1, 4)]);
}

#[test]
fn rank_top_returns_the_smallest() {
    let pairs = vec![(5usize, 0usize), (2, 1), (9, 2), (2, 3)];
    let top = rank_top(pairs, 2);
    assert_eq!(top, vec![(2, 1), (2, 3)]);
}

#[test]
fn like_ranks_nicknames_by_distance() {
    let snap = Snapshot {
        relays: vec![
            relay("alpha", "0011bd2485ad45d984ec4159c88fc066e5e3300e", 9001),
            relay("moria1", "0123456789abcdef0123456789abcdef01234567", 9001),
            relay("moria11", "aa11bd2485ad45d984ec4159c88fc066e5e3300e", 9001),
            relay("zzzz", "bb11bd2485ad45d984ec4159c88fc066e5e3300e", 9001),
        ],
    };
    let cmd = LikeCommand { name: String::from("moria1") };
    let top = cmd.top(&snap);
    assert_eq!(top.len(), 4);
    assert_eq!(top[0], (0, 1)); // exact match first
    assert_eq!(top[1], (1, 2)); // one edit away
    // distances never decrease
    for w in top.windows(2) {
        assert!(w[0].0 <= w[1].0);
    }
}

#[test]
fn sybilhunter_ranks_signatures_and_formats_lines() {
    let snap = Snapshot {
        relays: vec![
            relay("twin", "0011bd2485ad45d984ec4159c88fc066e5e3300e", 9001),
            relay("twin", "0011bd2485ad45d984ec4159c88fc066e5e3300f", 9001),
            relay("other", "ffffbd2485ad45d984ec4159c88fc066e5e3300e", 443),
        ],
    };
    let cmd = SybilHunterCommand {
        fingerprint: String::from("0011BD2485AD45D984EC4159C88FC066E5E3300E"),
    };
    let (reference, ranked) = cmd.ranked(&snap).unwrap();
    assert_eq!(reference, 0);
    assert_eq!(ranked[0], (0, 0)); // the reference itself, at distance zero
    assert_eq!(ranked.len(), 3);
    for w in ranked.windows(2) {
        assert!(w[0].0 <= w[1].0);
    }
    let lines = format_distances(&snap, &ranked);
    assert_eq!(lines.len(), 3);
    assert!(lines[0].starts_with("0: 0011BD2485AD45D984EC4159C88FC066E5E3300E, twin, "));
}

#[test]
fn sybilhunter_reports_a_missing_reference() {
    let snap = Snapshot { relays: Vec::new() };
    let cmd = SybilHunterCommand {
        fingerprint: String::from("0011BD2485AD45D984EC4159C88FC066E5E3300E"),
    };
    assert!(cmd.ranked(&snap).is_err());
}
