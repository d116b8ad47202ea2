use relaytool::config::{
    artifact_after, BadCommand, ConfigCommand, ConfigSubCommand,
};
use relaytool::filter::{FindFilter, Filter};
use relaytool::fingerprint::fps_from_file_text;
use relaytool::policy::parse_portpolicy;
use relaytool::relay::{OrPort, RelayFlags, RelayRecord, RelayWeight, Snapshot};

const FP_A: &str = "0011BD2485AD45D984EC4159C88FC066E5E3300E";
const FP_B: &str = "0123456789ABCDEF0123456789ABCDEF01234567";

fn relay(nickname: &str, rsa_hex: &str, ip: [u8; 4], port: u16) -> RelayRecord {
    let ipv = ((ip[0] as u128) << 24) | ((ip[1] as u128) << 16) | ((ip[2] as u128) << 8) | (ip[3]
        as u128);
    RelayRecord {
        nickname: String::from(nickname),
        rsa_hex: rsa_hex.to_lowercase(),
        ed_id: String::from("mGyPPGMnhl6oF4tCuDukaqmsNq4QdL2cHQJ2memBpkY"),
        orports: vec![OrPort { v6: false, ip: ipv, port }],
        flags: RelayFlags { bits: 0 },
        version: Some(String::from("0.4.8.9")),
        weight: RelayWeight::Unmeasured(30),
        ipv4_policy: parse_portpolicy("reject 1-65535").unwrap(),
        ipv6_policy: parse_portpolicy("reject 1-65535").unwrap(),
        family: Vec::new(),
    }
}

#[test]
fn missing_relays_ok() {
    let content = format!("{}\n{}\n", FP_A, FP_B);
    let (fps, errs) = fps_from_file_text(&content);
    assert!(errs.is_empty());
    let bad_command = BadCommand {
        ticket: 1,
        filters: Vec::from([FindFilter::new(false, Filter::FpsFileFilter(fps))]),
    };
    let found_fps = vec![FP_A.to_string()];
    let missing_fps = bad_command.missing_fps(found_fps);
    let expected_missing_fps = vec![FP_B.to_string()];
    assert!(expected_missing_fps == missing_fps);
}

#[test]
fn missing_fps_keeps_file_order() {
    let fp_c = "00AABD2485AD45D984EC4159C88FC066E5E3300A";
    let content = format!("{} {} {}", FP_A, FP_B, fp_c);
    let (fps, _) = fps_from_file_text(&content);
    let cmd = BadCommand {
        ticket: 7,
        filters: vec![FindFilter::new(false, Filter::FpsFileFilter(fps))],
    };
    let missing = cmd.missing_fps(vec![FP_A.to_string()]);
    assert_eq!(missing.len(), 2);
    assert_eq!(missing[0], FP_B);
    assert_eq!(missing[1], fp_c);
}

#[test]
fn config_scenario_rejectbad_writes_both_rules() {
    let snap = Snapshot { relays: vec![relay("bad1", FP_A, [9, 9, 9, 9], 9001)] };
    let cmd = ConfigCommand {
        subcommand: ConfigSubCommand::RejectBad(BadCommand {
            ticket: 42,
            filters: vec![FindFilter::from_str("n:bad1").unwrap()],
        }),
    };
    let out = cmd.generate(&snap);
    assert_eq!(out.matched, vec![0]);
    let bad = out.bad.expect("address artifact block");
    assert!(bad.contains("AuthDirReject 9.9.9.9\n"));
    assert!(bad.contains("# Ticket: "));
    assert!(bad.contains("/42\n"));
    assert!(bad.contains("# Fingerprints:\n"));
    assert!(bad.contains(&format!("{} {}\n", "#              ", FP_A)));
    let approved = out.approved.expect("identity artifact block");
    assert!(approved.contains(&format!("!reject {}\n", FP_A)));
}

#[test]
fn config_without_address_token_skips_address_artifact() {
    let snap = Snapshot { relays: vec![relay("bad1", FP_A, [9, 9, 9, 9], 9001)] };
    let cmd = ConfigCommand {
        subcommand: ConfigSubCommand::MiddleOnly(BadCommand {
            ticket: 5,
            filters: vec![FindFilter::from_str("n:bad1").unwrap()],
        }),
    };
    let out = cmd.generate(&snap);
    assert!(out.bad.is_none());
    let approved = out.approved.expect("identity artifact block");
    assert!(approved.contains(&format!("!middleonly {}\n", FP_A)));
}

#[test]
fn config_without_matches_or_missing_writes_nothing() {
    let snap = Snapshot { relays: vec![relay("good", FP_A, [9, 9, 9, 9], 9001)] };
    let cmd = ConfigCommand {
        subcommand: ConfigSubCommand::Reject(BadCommand {
            ticket: 5,
            filters: vec![FindFilter::from_str("n:absent").unwrap()],
        }),
    };
    let out = cmd.generate(&snap);
    assert!(out.bad.is_none());
    assert!(out.approved.is_none());
    assert_eq!(out.matched.len(), 0);
}

#[test]
fn generating_twice_appends_two_full_blocks() {
    let snap = Snapshot { relays: vec![relay("bad1", FP_A, [9, 9, 9, 9], 9001)] };
    let cmd = BadCommand { ticket: 42, filters: vec![FindFilter::from_str("n:bad1").unwrap()] };
    let out1 = cmd.generate(&snap, "AuthDirReject", "!reject");
    let out2 = cmd.generate(&snap, "AuthDirReject", "!reject");
    let block1 = out1.bad.unwrap();
    let block2 = out2.bad.unwrap();
    assert_eq!(block1, block2);

    let once = artifact_after("", &block1);
    let twice = artifact_after(&once, &block2);
    // nothing truncated: the first write is still a prefix
    assert!(twice.starts_with(&once));
    // two header blocks, every relay line doubled
    assert_eq!(twice.matches("# Ticket: ").count(), 2);
    assert_eq!(twice.matches("AuthDirReject 9.9.9.9\n").count(), 2);
    assert_eq!(twice.len(), 2 * block1.len());
}

#[test]
fn ipv6_addresses_are_bracketed_in_rules() {
    let mut r = relay("six", FP_A, [0, 0, 0, 0], 9001);
    r.orports = vec![OrPort { v6: true, ip: 0x2001_0db8_u128 << 96 | 0x1, port: 443 }];
    let rule = relaytool::config::fmt_addr_rule("AuthDirReject", &r);
    assert_eq!(rule, "AuthDirReject [2001:db8:0:0:0:0:0:1]\n");
}

#[test]
fn ticket_header_contains_the_ticket() {
    let cmd = BadCommand { ticket: 123456, filters: Vec::new() };
    let c = cmd.comment();
    assert!(c.starts_with("\n# Ticket: "));
    assert!(c.ends_with("/123456\n"));
}
