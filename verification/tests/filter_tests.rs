use relaytool::errors::Error;
use relaytool::filter::{policy_file_request, FindCommand, FindFilter, Filter};
use relaytool::policy::{parse_portpolicy, PortPolicy};
use relaytool::relay::{
    OrPort, RelayFlags, RelayRecord, RelayWeight, Snapshot, FLAG_EXIT, FLAG_FAST, FLAG_GUARD,
};

fn relay(nickname: &str, rsa_hex: &str, ip: [u8; 4], port: u16, flags: u16) -> RelayRecord {
    let ipv = ((ip[0] as u128) << 24) | ((ip[1] as u128) << 16) | ((ip[2] as u128) << 8) | (ip[3]
        as u128);
    RelayRecord {
        nickname: String::from(nickname),
        rsa_hex: String::from(rsa_hex),
        ed_id: String::from("mGyPPGMnhl6oF4tCuDukaqmsNq4QdL2cHQJ2memBpkY"),
        orports: vec![OrPort { v6: false, ip: ipv, port }],
        flags: RelayFlags { bits: flags },
        version: Some(String::from("0.4.8.9")),
        weight: RelayWeight::Measured(120),
        ipv4_policy: parse_portpolicy("reject 1-65535").unwrap(),
        ipv6_policy: parse_portpolicy("reject 1-65535").unwrap(),
        family: Vec::new(),
    }
}

fn snapshot_two() -> Snapshot {
    Snapshot {
        relays: vec![
            relay(
                "moria1",
                "0011bd2485ad45d984ec4159c88fc066e5e3300e",
                [1, 2, 3, 4],
                9001,
                FLAG_GUARD | FLAG_FAST,
            ),
            relay(
                "moria2",
                "0123456789abcdef0123456789abcdef01234567",
                [5, 6, 7, 8],
                443,
                FLAG_EXIT,
            ),
        ],
    }
}

#[test]
fn port_policy_filter_from_str() {
    let filter_str = "pp:accept 20-23,43,53,79-81,88,110,143,194,220";
    let find_filter = FindFilter::from_str(filter_str).unwrap();
    let port_policy_filter = find_filter.filter;
    matches!(port_policy_filter, Filter::PortPolicyFilter(_));
}

#[test]
#[should_panic(expected = "WrongPolicy")]
// Ports are not in order, what happens when `-` is removed from `20-23`.
fn port_policy_filter_from_str_invalid_policy() {
    let filter_str = "pp:accept 2023,43,53,79-81,88,110,143,194,220";
    let find_filter = FindFilter::from_str(filter_str).unwrap();
    let port_policy_filter = find_filter.filter;
    matches!(port_policy_filter, Filter::PortPolicyFilter(_));
}

#[test]
fn token_without_colon_is_invalid() {
    assert!(matches!(
        FindFilter::from_str("guard"),
        Err(Error::InvalidFilter(t)) if t == "guard"
    ));
}

#[test]
fn token_with_unknown_key_is_unrecognized() {
    assert!(matches!(
        FindFilter::from_str("zz:abc"),
        Err(Error::UnrecognizedFilter(k)) if k == "zz"
    ));
}

#[test]
fn token_with_bad_network_is_invalid_address() {
    assert!(matches!(
        FindFilter::from_str("addr:999.0.0.1/8"),
        Err(Error::InvalidAddress(v)) if v == "999.0.0.1/8"
    ));
}

#[test]
fn token_with_bad_port_is_invalid_port() {
    assert!(matches!(
        FindFilter::from_str("p:https"),
        Err(Error::InvalidPort(v)) if v == "https"
    ));
    assert!(matches!(FindFilter::from_str("p:65536"), Err(Error::InvalidPort(_))));
    assert!(matches!(FindFilter::from_str("p:"), Err(Error::InvalidPort(_))));
}

#[test]
fn leading_dash_sets_exclusion() {
    let t = FindFilter::from_str("-n:moria").unwrap();
    assert!(t.exclude);
    assert!(matches!(t.filter, Filter::Nickname(n) if n == "moria"));
    let t = FindFilter::from_str("n:moria").unwrap();
    assert!(!t.exclude);
}

#[test]
fn policy_file_tokens_are_answered_separately() {
    assert_eq!(
        policy_file_request("pf:some/policy.txt"),
        Some((false, String::from("some/policy.txt")))
    );
    assert_eq!(
        policy_file_request("-portpolicyfile:p.txt"),
        Some((true, String::from("p.txt")))
    );
    assert_eq!(policy_file_request("n:moria"), None);
    let t = FindFilter::from_policy_file(true, "accept 80,443").unwrap();
    assert!(t.exclude);
    assert!(matches!(t.filter, Filter::PortPolicyFilter(_)));
}

#[test]
fn exclusion_law_on_a_record() {
    let snap = snapshot_two();
    let base = FindFilter::new(false, Filter::Nickname(String::from("moria1")));
    let negated = FindFilter::new(true, Filter::Nickname(String::from("moria1")));
    for r in &snap.relays {
        assert_eq!(base.match_relay(r), !negated.match_relay(r));
    }
}

#[test]
fn conjunction_law_on_records() {
    let snap = snapshot_two();
    let t1 = FindFilter::from_str("fl:guard").unwrap();
    let t2 = FindFilter::from_str("p:9001").unwrap();
    let all = FindCommand::new(vec![t1.clone(), t2.clone()]);
    for r in &snap.relays {
        assert_eq!(all.match_relay(r), t1.match_relay(r) && t2.match_relay(r));
    }
    // the empty filter set matches every relay
    let empty = FindCommand::new(Vec::new());
    for r in &snap.relays {
        assert!(empty.match_relay(r));
    }
}

#[test]
fn find_scenario_guard_flag_and_port() {
    let snap = snapshot_two();

    let guard = FindCommand::new(vec![FindFilter::from_str("fl:guard").unwrap()]);
    assert_eq!(guard.filter(&snap), vec![0]);

    let not_guard = FindCommand::new(vec![FindFilter::from_str("-fl:guard").unwrap()]);
    assert_eq!(not_guard.filter(&snap), vec![1]);

    let port = FindCommand::new(vec![FindFilter::from_str("p:443").unwrap()]);
    assert_eq!(port.filter(&snap), vec![1]);
}

#[test]
fn address_filter_matches_by_network() {
    let snap = snapshot_two();
    let net = FindCommand::new(vec![FindFilter::from_str("a:1.2.3.0/24").unwrap()]);
    assert_eq!(net.filter(&snap), vec![0]);
    let exact = FindCommand::new(vec![FindFilter::from_str("addr:5.6.7.8").unwrap()]);
    assert_eq!(exact.filter(&snap), vec![1]);
    let none = FindCommand::new(vec![FindFilter::from_str("a:9.0.0.0/8").unwrap()]);
    assert_eq!(none.count(&snap), 0);
}

#[test]
fn fingerprint_filter_matches_substring_case_folded() {
    let snap = snapshot_two();
    let t = FindFilter::from_str("f:$0011BD2485AD45D984EC4159C88FC066E5E3300E").unwrap();
    assert!(t.match_relay(&snap.relays[0]));
    assert!(!t.match_relay(&snap.relays[1]));
}

#[test]
fn version_filter_treats_missing_version_as_non_matching() {
    let snap = snapshot_two();
    let mut bare = relay("old", "0123456789abcdef0123456789abcdef012345ff", [9, 9, 9, 9], 1, 0);
    bare.version = None;
    let t = FindFilter::from_str("v:0.4").unwrap();
    assert!(t.match_relay(&snap.relays[0]));
    assert!(!t.match_relay(&bare));
}

#[test]
fn port_policy_filter_requires_literal_equality() {
    let mut snap = snapshot_two();
    snap.relays[0].ipv4_policy = parse_portpolicy("accept 80,443").unwrap();
    let t = FindFilter::from_str("pp:accept 80,443").unwrap();
    assert!(t.match_relay(&snap.relays[0]));
    assert!(!t.match_relay(&snap.relays[1]));
    let different = FindFilter::from_str("pp:accept 80-80,443").unwrap();
    // same allowed set, same rule list once parsed: 80-80 parses as the range (80, 80)
    assert!(different.match_relay(&snap.relays[0]));
    let coarser: PortPolicy = parse_portpolicy("accept 80-443").unwrap();
    assert!(!snap.relays[0].ipv4_policy.eq_policy(&coarser));
}
