use asn_lookup::checker::Checker;
use asn_lookup::text::parse_u32;
use asn_lookup::types::IpAddress;

#[test]
fn parse_u32_accepts_plain_decimal() {
    assert_eq!(parse_u32("0"), Some(0));
    assert_eq!(parse_u32("13335"), Some(13335));
    assert_eq!(parse_u32("004"), Some(4));
    assert_eq!(parse_u32("4294967295"), Some(u32::MAX));
}

#[test]
fn parse_u32_rejects_junk_and_overflow() {
    assert_eq!(parse_u32(""), None);
    assert_eq!(parse_u32("12a"), None);
    assert_eq!(parse_u32("-1"), None);
    assert_eq!(parse_u32("4294967296"), None);
    assert_eq!(parse_u32("99999999999999999999"), None);
}

#[test]
fn registry_skips_noise_lines() {
    let names = "\n\
                 File header produced by an unrelated tool\n\
                 abc DEF US\n\
                 42 REAL-NAME US\n\
                 \n";
    let mut checker = Checker::new();
    assert!(checker.init(names, "", "").is_some());
    // Only the well-formed line survives.
    let rec = checker.get_asn(42).expect("Not found");
    assert_eq!(rec.name, "REAL-NAME".to_string());
    assert_eq!(rec.cc, "US".to_string());
    assert!(checker.get_asn(0).is_none());
}

#[test]
fn registry_requires_three_tokens() {
    let names = "7\n8 LONELY\n9 NAMED CC\n";
    let mut checker = Checker::new();
    assert!(checker.init(names, "", "").is_some());
    assert!(checker.get_asn(7).is_none());
    assert!(checker.get_asn(8).is_none());
    let rec = checker.get_asn(9).expect("Not found");
    assert_eq!(rec.name, "NAMED".to_string());
    assert_eq!(rec.cc, "CC".to_string());
}

#[test]
fn registry_name_is_the_run_between_id_and_country() {
    let names = "  42   FOO   BAR   CC  \n";
    let mut checker = Checker::new();
    assert!(checker.init(names, "", "").is_some());
    let rec = checker.get_asn(42).expect("Not found");
    // The name keeps the inner spacing of the source line.
    assert_eq!(rec.name, "FOO   BAR".to_string());
    assert_eq!(rec.cc, "CC".to_string());
}

#[test]
fn registry_duplicate_id_later_line_wins() {
    let names = "7 OLD NAME AA\n7 NEW NAME BB\n";
    let mut checker = Checker::new();
    assert!(checker.init(names, "", "").is_some());
    let rec = checker.get_asn(7).expect("Not found");
    assert_eq!(rec.name, "NEW NAME".to_string());
    assert_eq!(rec.cc, "BB".to_string());
}

#[test]
fn registry_handles_crlf_line_endings() {
    let names = "42 WINDOWS-STYLE US\r\n43 ALSO HERE DE\r\n";
    let mut checker = Checker::new();
    assert!(checker.init(names, "", "").is_some());
    assert_eq!(checker.get_asn(42).expect("Not found").cc, "US".to_string());
    assert_eq!(checker.get_asn(43).expect("Not found").cc, "DE".to_string());
}

#[test]
fn range_table_with_extra_fields_uses_first_and_last() {
    // The network is the first field and the AS number the last, whatever
    // stands between.
    let mut checker = Checker::new();
    assert!(checker.init("5 FIVE US\n", "", "2001:db8::/32 middle junk 5\n").is_some());
    let found = checker
        .search(&IpAddress::v6_groups([0x2001, 0xdb8, 0, 0, 0, 0, 0, 1]))
        .expect("Not found");
    assert_eq!(found.asn.id, 5);
}

#[test]
fn range_line_with_bad_as_number_is_fatal() {
    let mut checker = Checker::new();
    assert!(checker.init("5 FIVE US\n", "1.2.3.0/24\tnot-a-number\n", "").is_none());
    assert!(checker.init("5 FIVE US\n", "1.2.3.0/24\t\n", "").is_none());
}

#[test]
fn parsed_network_carries_exact_bits_and_length() {
    // Would fail if CIDR parsing handed anything but the written address
    // bits and prefix length back.
    let mut checker = Checker::new();
    assert!(checker.init("5 FIVE US\n", "192.168.7.0/26\t5\n", "").is_some());
    let found = checker.search(&IpAddress::v4(192, 168, 7, 63)).expect("Not found");
    assert_eq!(found.net.v6, false);
    assert_eq!(found.net.bits, (192u128 << 24) | (168 << 16) | (7 << 8));
    assert_eq!(found.net.plen, 26);
    // The next address up is outside the /26.
    assert!(checker.search(&IpAddress::v4(192, 168, 7, 64)).is_none());
}
