use relaytool::filter::{FindFilter, Filter};
use relaytool::policy::parse_portpolicy;
use relaytool::text::{contains_substr, str_eq, to_lower, to_upper, u64_to_dec};

#[test]
fn decimal_formatting_has_exact_values() {
    assert_eq!(u64_to_dec(0), "0");
    assert_eq!(u64_to_dec(42), "42");
    assert_eq!(u64_to_dec(65535), "65535");
    assert_eq!(u64_to_dec(u64::MAX), "18446744073709551615");
}

#[test]
fn case_folding_touches_only_ascii_letters() {
    assert_eq!(to_upper("abc-XYZ_09"), "ABC-XYZ_09");
    assert_eq!(to_lower("ABC-xyz_09"), "abc-xyz_09");
}

#[test]
fn substring_containment_matches_std() {
    let cases = [("moria1", "oria"), ("moria1", ""), ("", ""), ("ab", "abc"), ("aaa", "aa")];
    for (hay, needle) in cases {
        assert_eq!(contains_substr(hay, needle), hay.contains(needle));
    }
}

#[test]
fn string_equality_is_exact() {
    assert!(str_eq("abc", "abc"));
    assert!(!str_eq("abc", "abd"));
    assert!(!str_eq("abc", "ab"));
}

#[test]
fn bare_policy_keyword_is_the_empty_policy() {
    let p = parse_portpolicy("accept").unwrap();
    assert!(p.rules.is_empty());
    assert!(!p.allows_port(80)); // nothing covered: implicit reject
}

#[test]
fn empty_nickname_needle_matches_every_relay() {
    let t = FindFilter::from_str("n:").unwrap();
    assert!(matches!(&t.filter, Filter::Nickname(n) if n.is_empty()));
}
