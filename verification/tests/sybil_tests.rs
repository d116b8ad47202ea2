use relaytool::commands::CountCommand;
use relaytool::filter::FindFilter;
use relaytool::policy::{PolicyAction, PolicyRule, PortPolicy, parse_portpolicy};
use relaytool::relay::{OrPort, RelayFlags, RelayRecord, RelayWeight, Snapshot, FLAG_GUARD};
use relaytool::sybil::{
    reduced_exit_policy_ports, PolicyClass, SybilCommand, SybilSubCommand, TestExitPolicy,
};

fn sybil() -> SybilCommand {
    SybilCommand { subcommand: SybilSubCommand::Exitpolicy(TestExitPolicy {}) }
}

/// A policy that accepts exactly the given ascending ports, one rule each.
fn policy_of_ports(ports: &[u16]) -> PortPolicy {
    PortPolicy {
        rules: ports
            .iter()
            .map(|p| PolicyRule { action: PolicyAction::Accept, lo: *p, hi: *p })
            .collect(),
    }
}

fn relay(nickname: &str, rsa_hex: &str, policy: PortPolicy) -> RelayRecord {
    RelayRecord {
        nickname: String::from(nickname),
        rsa_hex: String::from(rsa_hex),
        ed_id: String::from("mGyPPGMnhl6oF4tCuDukaqmsNq4QdL2cHQJ2memBpkY"),
        orports: vec![OrPort { v6: false, ip: 0x01020304, port: 9001 }],
        flags: RelayFlags { bits: FLAG_GUARD },
        version: Some(String::from("0.4.8.9")),
        weight: RelayWeight::Measured(120),
        ipv4_policy: policy,
        ipv6_policy: parse_portpolicy("reject 1-65535").unwrap(),
        family: Vec::new(),
    }
}

#[test]
fn exact_profile_does_not_match_and_exceed() {
    let reduced = reduced_exit_policy_ports();
    let exact = policy_of_ports(&reduced);
    let s = sybil();
    assert!(s.match_policy(&exact, &reduced));
    assert!(!s.match_policy_empty(&exact, &reduced));
    // the boundary: covering the profile exactly is not "matches and exceeds"
    assert!(!s.match_policy_and_more(&exact, &reduced));
}

#[test]
fn wider_policy_matches_and_exceeds() {
    let reduced = reduced_exit_policy_ports();
    let wide = parse_portpolicy("accept 1-65535").unwrap();
    let s = sybil();
    assert!(s.match_policy(&wide, &reduced));
    assert!(s.match_policy_and_more(&wide, &reduced));
}

#[test]
fn closed_policy_matches_none() {
    let reduced = reduced_exit_policy_ports();
    let closed = PortPolicy { rules: Vec::new() };
    let s = sybil();
    assert!(s.match_policy_empty(&closed, &reduced));
    assert!(!s.match_policy(&closed, &reduced));
}

#[test]
fn one_port_outside_the_profile_is_enough() {
    let reduced = reduced_exit_policy_ports();
    let mut ports: Vec<u16> = reduced.clone();
    ports.push(65535); // one extra port, above every profile port
    let s = sybil();
    assert!(s.match_policy_and_more(&policy_of_ports(&ports), &reduced));
}

#[test]
fn classify_reports_only_unique_extreme_policies() {
    let wide = parse_portpolicy("accept 1-65535").unwrap();
    let closed = PortPolicy { rules: Vec::new() };
    let snap = Snapshot {
        relays: vec![
            relay("w", "0011bd2485ad45d984ec4159c88fc066e5e3300e", wide.clone()),
            relay("c", "0123456789abcdef0123456789abcdef01234567", closed.clone()),
            // a shared policy: both drop out of the report
            relay("s1", "aa11bd2485ad45d984ec4159c88fc066e5e3300e", parse_portpolicy("accept 80").unwrap()),
            relay("s2", "bb11bd2485ad45d984ec4159c88fc066e5e3300e", parse_portpolicy("accept 80").unwrap()),
        ],
    };
    let report = sybil().classify(&snap);
    assert_eq!(
        report,
        vec![(0, PolicyClass::MatchesAndExceeds), (1, PolicyClass::MatchesNone)]
    );
}

#[test]
fn counts_per_filter_and_combined() {
    let wide = parse_portpolicy("accept 1-65535").unwrap();
    let snap = Snapshot {
        relays: vec![
            relay("alpha", "0011bd2485ad45d984ec4159c88fc066e5e3300e", wide.clone()),
            relay("beta", "0123456789abcdef0123456789abcdef01234567", wide),
        ],
    };
    let cmd = CountCommand {
        list: false,
        filters: vec![
            FindFilter::from_str("fl:guard").unwrap(),
            FindFilter::from_str("n:alpha").unwrap(),
        ],
    };
    let (per, all) = cmd.counts(&snap);
    assert_eq!(per, vec![2, 1]);
    assert_eq!(all, 1);
}
