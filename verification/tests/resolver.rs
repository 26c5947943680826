use asn_lookup::checker::Checker;
use asn_lookup::types::{AsRecord, IpAddress, IpInfo, Network};

fn sample_checker() -> Checker {
    let names = "13335 CLOUDFLARENET, US\n100 ALPHA ONE NL\n200 BETA DE\n";
    let v4 = "1.1.1.0/24\t13335\n10.0.0.0/8\t100\n10.1.0.0/16\t200\n9.9.9.0/24\t999\n";
    let v6 = "2001:678:19c::/48 13335\n";
    let mut checker = Checker::new();
    assert!(checker.init(names, v4, v6).is_some());
    checker
}

#[test]
fn check_ipv4() {
    let checker = sample_checker();
    let cfn_ip = IpAddress::v4(1, 1, 1, 1);
    let cfn_net = Network { v6: false, bits: 0x0101_0100, plen: 24 };

    let real = IpInfo {
        ip: Some(cfn_ip),
        net: cfn_net,
        asn: AsRecord {
            id: 13335,
            name: "CLOUDFLARENET,".to_string(),
            cc: "US".to_string(),
        },
    };

    let found = checker.search(&cfn_ip).expect("Not found");
    assert_eq!(found, real);
}

#[test]
fn check_ipv6() {
    let checker = sample_checker();
    let cfn_ip = IpAddress::v6_groups([0x2001, 0x678, 0x19c, 0, 0, 0, 0, 1]);
    let cfn_net = Network {
        v6: true,
        bits: 0x2001_0678_019c_0000_0000_0000_0000_0000,
        plen: 48,
    };

    let real = IpInfo {
        ip: Some(cfn_ip),
        net: cfn_net,
        asn: AsRecord {
            id: 13335,
            name: "CLOUDFLARENET,".to_string(),
            cc: "US".to_string(),
        },
    };

    let found = checker.search(&cfn_ip).expect("Not found");
    assert_eq!(found, real);
}

#[test]
fn non_overlapping_range_resolves_to_its_owner() {
    let checker = sample_checker();
    let ip = IpAddress::v4(1, 1, 1, 200);
    let found = checker.search(&ip).expect("Not found");
    assert_eq!(found.asn.id, 13335);
    assert_eq!(found.net, Network { v6: false, bits: 0x0101_0100, plen: 24 });
}

#[test]
fn nested_ranges_resolve_to_longest_prefix() {
    let checker = sample_checker();

    // 10.1.2.3 sits in both 10.0.0.0/8 (AS100) and 10.1.0.0/16 (AS200):
    // the more specific /16 must win.
    let inner = checker.search(&IpAddress::v4(10, 1, 2, 3)).expect("Not found");
    assert_eq!(inner.asn.id, 200);
    assert_eq!(inner.net.plen, 16);

    // 10.2.0.0 sits only in 10.0.0.0/8.
    let outer = checker.search(&IpAddress::v4(10, 2, 0, 0)).expect("Not found");
    assert_eq!(outer.asn.id, 100);
    assert_eq!(outer.net.plen, 8);
}

#[test]
fn uncovered_address_is_not_found() {
    let checker = sample_checker();
    assert!(checker.search(&IpAddress::v4(8, 8, 8, 8)).is_none());
    assert!(checker.search(&IpAddress::v6_groups([0xfd00, 0, 0, 0, 0, 0, 0, 1])).is_none());
}

#[test]
fn get_asn_returns_stored_record_or_not_found() {
    let checker = sample_checker();
    let rec = checker.get_asn(100).expect("Not found");
    assert_eq!(rec.id, 100);
    assert_eq!(rec.name, "ALPHA ONE".to_string());
    assert_eq!(rec.cc, "NL".to_string());
    assert!(checker.get_asn(999).is_none());
    assert!(checker.get_asn(0).is_none());
}

#[test]
fn unknown_as_number_resolves_to_sentinel() {
    let checker = sample_checker();
    // 9.9.9.0/24 is announced by AS999, which has no registry entry: the
    // range still classifies, owned by the sentinel record.
    let found = checker.search(&IpAddress::v4(9, 9, 9, 9)).expect("Not found");
    assert_eq!(found.asn.id, 0);
    assert_eq!(found.asn.name, "Unknown".to_string());
    assert_eq!(found.asn.cc, "XX".to_string());
}

#[test]
fn duplicate_announcement_later_wins() {
    let names = "100 ALPHA NL\n200 BETA DE\n";
    let v4 = "5.5.0.0/16\t100\n5.5.0.0/16\t200\n";
    let mut checker = Checker::new();
    assert!(checker.init(names, v4, "").is_some());
    let found = checker.search(&IpAddress::v4(5, 5, 1, 1)).expect("Not found");
    assert_eq!(found.asn.id, 200);
}

#[test]
fn repeated_ingestion_answers_identically() {
    let names = "13335 CLOUDFLARENET, US\n100 ALPHA ONE NL\n200 BETA DE\n";
    let v4 = "1.1.1.0/24\t13335\n10.0.0.0/8\t100\n10.1.0.0/16\t200\n9.9.9.0/24\t999\n";
    let v6 = "2001:678:19c::/48 13335\n";
    let mut c1 = Checker::new();
    let mut c2 = Checker::new();
    assert!(c1.init(names, v4, v6).is_some());
    assert!(c2.init(names, v4, v6).is_some());
    let probes = [
        IpAddress::v4(1, 1, 1, 1),
        IpAddress::v4(10, 1, 2, 3),
        IpAddress::v4(10, 2, 0, 0),
        IpAddress::v4(9, 9, 9, 9),
        IpAddress::v4(8, 8, 8, 8),
        IpAddress::v6_groups([0x2001, 0x678, 0x19c, 0, 0, 0, 0, 1]),
    ];
    for ip in probes.iter() {
        assert_eq!(c1.search(ip), c2.search(ip));
    }
    assert_eq!(c1.get_asn(100), c2.get_asn(100));
    assert_eq!(c1.get_asn(999), c2.get_asn(999));
}

#[test]
fn malformed_range_line_aborts_and_keeps_old_snapshot() {
    let mut checker = sample_checker();
    // An un-parseable CIDR is fatal for the refresh; the previous snapshot
    // stays active and answers unchanged.
    let bad_v4 = "10.0.0.300/8\t100\n";
    assert!(checker.init("100 ALPHA NL\n", bad_v4, "").is_none());
    let found = checker.search(&IpAddress::v4(1, 1, 1, 1)).expect("Not found");
    assert_eq!(found.asn.id, 13335);
    let rec = checker.get_asn(200).expect("Not found");
    assert_eq!(rec.name, "BETA".to_string());
}

#[test]
fn wrong_family_line_aborts_refresh() {
    let mut checker = Checker::new();
    // A v6 network in the v4 table is a malformed line for that dataset.
    assert!(checker.init("100 ALPHA NL\n", "2001:db8::/32\t100\n", "").is_none());
    // And a v4 network in the v6 table likewise.
    assert!(checker.init("100 ALPHA NL\n", "", "10.0.0.0/8 100\n").is_none());
}

#[test]
fn empty_datasets_build_an_empty_snapshot() {
    let mut checker = Checker::new();
    assert!(checker.init("", "", "").is_some());
    assert!(checker.search(&IpAddress::v4(1, 2, 3, 4)).is_none());
    assert!(checker.get_asn(1).is_none());
}

#[test]
fn fresh_checker_answers_not_found() {
    let checker = Checker::new();
    assert!(checker.search(&IpAddress::v4(1, 1, 1, 1)).is_none());
    assert!(checker.get_asn(13335).is_none());
}

#[test]
fn zero_length_prefix_covers_everything() {
    let mut checker = Checker::new();
    assert!(checker.init("7 DEFAULT ROUTE ZZ\n", "0.0.0.0/0\t7\n", "").is_some());
    let found = checker.search(&IpAddress::v4(203, 0, 113, 9)).expect("Not found");
    assert_eq!(found.asn.id, 7);
    assert_eq!(found.net, Network { v6: false, bits: 0, plen: 0 });
}
