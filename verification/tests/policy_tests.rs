use relaytool::policy::{parse_portpolicy, portpolicy_from_file_text, PolicyAction, PolicyRule, PortPolicy};

const POLICY_ACCEPT: &str = "accept 20-23,43,53,79-81,88,110,143,194,220";
const POLICY_ACCEPT1: &str = "accept 1-24,26-118,120-134,140-444,446-464,\
    466-562,564-586,588-1213,1215-4660,4667-6345,6430-6698,6700-6880,\
    7000-65535";
const POLICY_REJECT: &str = "reject 25,119,135-139,445,563,1214,4661-4666";

#[test]
fn port_policy_from_file_accept() {
    let content = "accept\n 20-23\n 43\n 53\n 79-81\n 88\n 110\n 143\n 194\n 220\n";
    let port_policy = portpolicy_from_file_text(content).unwrap();
    let expected_port_policy = parse_portpolicy(POLICY_ACCEPT).unwrap();
    assert_eq!(expected_port_policy, port_policy);
}

#[test]
fn port_policy_from_file_accept_commas() {
    let content = "accept\n1-24,26-118,120-134\n140-444,446-464,466-562\n564-586,588-1213\n\
        1215-4660,4667-6345\n6430-6698,6700-6880\n7000-65535\n";
    let port_policy = portpolicy_from_file_text(content).unwrap();
    let expected_port_policy = parse_portpolicy(POLICY_ACCEPT1).unwrap();
    assert_eq!(expected_port_policy, port_policy);
}

#[test]
fn port_policy_from_file_reject() {
    let content = "reject\n 25\n 119\n 135-139\n 445\n 563\n 1214\n 4661-4666\n";
    let port_policy = portpolicy_from_file_text(content).unwrap();
    let expected_port_policy = parse_portpolicy(POLICY_REJECT).unwrap();
    assert_eq!(expected_port_policy, port_policy)
}

#[test]
#[should_panic]
fn port_policy_from_file_invalid_policy() {
    let content = "accept\n 20\n 23-21\n";
    let _port_policy = portpolicy_from_file_text(content).unwrap();
}

#[test]
fn parse_accept_policy_structure() {
    let p = parse_portpolicy("accept 80,443-444").unwrap();
    assert_eq!(
        p.rules,
        vec![
            PolicyRule { action: PolicyAction::Accept, lo: 80, hi: 80 },
            PolicyRule { action: PolicyAction::Accept, lo: 443, hi: 444 },
        ]
    );
}

#[test]
fn parse_reject_policy_structure() {
    let p = parse_portpolicy("reject 25").unwrap();
    assert_eq!(p.rules.len(), 1);
    assert_eq!(p.rules[0], PolicyRule { action: PolicyAction::Reject, lo: 25, hi: 25 });
}

#[test]
fn parse_policy_rejects_bad_keyword() {
    assert!(parse_portpolicy("allow 80").is_err());
    assert!(parse_portpolicy("").is_err());
    assert!(parse_portpolicy("accept ").is_err());
}

#[test]
fn parse_policy_rejects_inverted_range() {
    assert!(parse_portpolicy("accept 90-80").is_err());
}

#[test]
fn parse_policy_rejects_out_of_order_entries() {
    assert!(parse_portpolicy("accept 2023,43").is_err());
}

#[test]
fn parse_policy_rejects_oversized_port() {
    assert!(parse_portpolicy("accept 65536").is_err());
    assert!(parse_portpolicy("accept 99999999999999999999999").is_err());
}

#[test]
fn allows_port_first_match_wins_and_defaults_to_reject() {
    let p = PortPolicy {
        rules: vec![
            PolicyRule { action: PolicyAction::Accept, lo: 80, hi: 90 },
            PolicyRule { action: PolicyAction::Reject, lo: 85, hi: 100 },
        ],
    };
    assert!(p.allows_port(85)); // first matching rule decides
    assert!(!p.allows_port(95)); // second rule
    assert!(!p.allows_port(20)); // no rule: implicit reject
}

#[test]
fn policy_equality_is_literal() {
    let a = parse_portpolicy("accept 80").unwrap();
    let b = parse_portpolicy("accept 80").unwrap();
    let c = parse_portpolicy("accept 80-80,443").unwrap();
    assert!(a.eq_policy(&b));
    assert!(!a.eq_policy(&c));
}

#[test]
fn policy_file_empty_content_fails() {
    assert!(portpolicy_from_file_text("").is_err());
    assert!(portpolicy_from_file_text("   \n  ").is_err());
}
