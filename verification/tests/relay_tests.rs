use relaytool::policy::parse_portpolicy;
use relaytool::relay::{
    parse_routerflag, relay2print, relay2string, relay2vec, relays2fps, weight2string, OrPort,
    RelayFlags, RelayRecord, RelayWeight, Snapshot, FLAG_BAD_EXIT, FLAG_EXIT, FLAG_FAST,
    FLAG_GUARD,
};

fn relay() -> RelayRecord {
    RelayRecord {
        nickname: String::from("moria1"),
        rsa_hex: String::from("0011bd2485ad45d984ec4159c88fc066e5e3300e"),
        ed_id: String::from("mGyPPGMnhl6oF4tCuDukaqmsNq4QdL2cHQJ2memBpkY"),
        orports: vec![
            OrPort { v6: false, ip: 0x01020304, port: 9001 },
            OrPort { v6: true, ip: 0x2001_0db8_u128 << 96 | 0x1, port: 9101 },
        ],
        flags: RelayFlags { bits: FLAG_GUARD | FLAG_FAST },
        version: Some(String::from("0.4.8.9")),
        weight: RelayWeight::Unmeasured(30),
        ipv4_policy: parse_portpolicy("reject 1-65535").unwrap(),
        ipv6_policy: parse_portpolicy("reject 1-65535").unwrap(),
        family: Vec::new(),
    }
}

#[test]
fn router_flags_parse_case_insensitively() {
    assert_eq!(parse_routerflag("Guard").bits, FLAG_GUARD);
    assert_eq!(parse_routerflag("BADEXIT").bits, FLAG_BAD_EXIT);
    assert_eq!(parse_routerflag("exit").bits, FLAG_EXIT);
    assert_eq!(parse_routerflag("unheard-of").bits, 0);
}

#[test]
fn flag_containment_is_superset() {
    let have = RelayFlags { bits: FLAG_GUARD | FLAG_FAST };
    assert!(have.contains(&RelayFlags { bits: FLAG_GUARD }));
    assert!(have.contains(&RelayFlags { bits: FLAG_GUARD | FLAG_FAST }));
    assert!(!have.contains(&RelayFlags { bits: FLAG_GUARD | FLAG_EXIT }));
}

#[test]
fn weight_encodes_measured_or_unmeasured() {
    let mut r = relay();
    assert_eq!(weight2string(&r), "300");
    r.weight = RelayWeight::Measured(55);
    assert_eq!(weight2string(&r), "055");
}

#[test]
fn signature_concatenates_the_five_fields() {
    let r = relay();
    let fields = relay2vec(&r);
    assert_eq!(fields.len(), 5);
    assert_eq!(fields[0], "moria1");
    assert_eq!(fields[1], "1.2.3.49001[2001db8000001]9101");
    assert_eq!(fields[2], "24"); // guard | fast
    assert_eq!(fields[3], "0.4.8.9");
    assert_eq!(fields[4], "300");
    assert_eq!(relay2string(&r), fields.concat());
}

#[test]
fn review_line_lists_fields_comma_separated() {
    let r = relay();
    let line = relay2print(&r);
    assert!(line.starts_with("0011BD2485AD45D984EC4159C88FC066E5E3300E, moria1, "));
    assert!(line.ends_with(", 24, 0.4.8.9, 300"));
}

#[test]
fn snapshot_fingerprints_come_back_uppercase() {
    let snap = Snapshot { relays: vec![relay()] };
    let fps = relays2fps(&snap, &vec![0]);
    assert_eq!(fps, vec![String::from("0011BD2485AD45D984EC4159C88FC066E5E3300E")]);
}

#[test]
fn version_defaults_to_empty_in_signatures() {
    let mut r = relay();
    r.version = None;
    let fields = relay2vec(&r);
    assert_eq!(fields[3], "");
}

#[test]
fn snapshot_check_validates_records() {
    let good = Snapshot { relays: vec![relay()] };
    assert!(good.check());

    let mut bad = Snapshot { relays: vec![relay()] };
    bad.relays[0].rsa_hex = String::from("0011bd2485ad45d984ec4159c88fc066e5e3300"); // 39 chars
    assert!(!bad.check());

    let mut upper = Snapshot { relays: vec![relay()] };
    upper.relays[0].rsa_hex = String::from("0011BD2485AD45D984EC4159C88FC066E5E3300E"); // not folded
    assert!(!upper.check());
}
