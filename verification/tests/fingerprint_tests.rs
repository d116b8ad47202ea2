use relaytool::errors::Error;
use relaytool::fingerprint::{fps_from_file_text, RelayFingerprint};

const RSA_UPPER: &str = "0011BD2485AD45D984EC4159C88FC066E5E3300E";
const ED_ID: &str = "mGyPPGMnhl6oF4tCuDukaqmsNq4QdL2cHQJ2memBpkY";

#[test]
fn fingerprint_wrong_lengths_always_fail() {
    let long = "x".repeat(44);
    for s in ["", "ab", "0011BD2485AD45D984EC4159C88FC066E5E3300", long.as_str()] {
        match RelayFingerprint::from_str(s) {
            Err(Error::WrongFingerprintLength(t)) => assert_eq!(t, s),
            other => panic!("expected length error, got {:?}", other),
        }
    }
}

#[test]
fn fingerprint_forty_nonhex_is_undecodable() {
    let s = "Z011BD2485AD45D984EC4159C88FC066E5E3300E";
    match RelayFingerprint::from_str(s) {
        Err(Error::UndecodableFingerprint(t)) => assert_eq!(t, s),
        other => panic!("expected undecodable error, got {:?}", other),
    }
}

#[test]
fn fingerprint_forty_hex_parses_as_rsa() {
    match RelayFingerprint::from_str(RSA_UPPER) {
        Ok(RelayFingerprint::Rsa(f)) => assert_eq!(f, RSA_UPPER),
        other => panic!("expected RSA fingerprint, got {:?}", other),
    }
}

#[test]
fn fingerprint_fortythree_parses_as_ed_without_hex_check() {
    match RelayFingerprint::from_str(ED_ID) {
        Ok(RelayFingerprint::Ed(f)) => assert_eq!(f, ED_ID),
        other => panic!("expected Ed fingerprint, got {:?}", other),
    }
    // no hex validation on the 43-character form
    let odd = "!!!!!!!!!!!!!!!!!!!!!!!!!!!!!!!!!!!!!!!!!!!";
    assert_eq!(odd.len(), 43);
    assert!(matches!(RelayFingerprint::from_str(odd), Ok(RelayFingerprint::Ed(_))));
}

#[test]
fn fingerprint_dollar_signs_are_stripped() {
    let s = format!("${}", RSA_UPPER);
    match RelayFingerprint::from_str(&s) {
        Ok(RelayFingerprint::Rsa(f)) => assert_eq!(f, RSA_UPPER),
        other => panic!("expected RSA fingerprint, got {:?}", other),
    }
}

#[test]
fn fingerprint_display_is_uppercase() {
    let fp = RelayFingerprint::from_str("0011bd2485ad45d984ec4159c88fc066e5e3300e").unwrap();
    assert_eq!(fp.to_display_string(), RSA_UPPER);
}

#[test]
fn fps_file_skips_and_reports_malformed_tokens() {
    let content = format!("{}\nnot-a-fingerprint\n{}\n", RSA_UPPER, ED_ID);
    let (fps, errs) = fps_from_file_text(&content);
    assert_eq!(fps.len(), 2);
    assert!(matches!(&fps[0], RelayFingerprint::Rsa(f) if f == RSA_UPPER));
    assert!(matches!(&fps[1], RelayFingerprint::Ed(f) if f == ED_ID));
    assert_eq!(errs.len(), 1);
    assert!(matches!(&errs[0], Error::WrongFingerprintLength(t) if t == "not-a-fingerprint"));
}

#[test]
fn error_messages_name_the_offender() {
    let e = Error::UnrecognizedFilter(String::from("zz"));
    assert_eq!(e.message(), "Unrecognized filter: zz");
    let e = Error::NoSuchRelay;
    assert_eq!(e.message(), "No such relay");
}
