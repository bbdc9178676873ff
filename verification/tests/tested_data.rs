use dns_geolocation_checker::ip::parse_ipv4;
use dns_geolocation_checker::ip_geo_checker::{IpApiResponse, IpGeoCheckerTestedData};

#[test]
fn test_ip_geo_checker_tested_data_set_host() {
    let data = IpGeoCheckerTestedData::default().set_host("example.com");
    assert_eq!(data.host, String::from("example.com"));
}

#[test]
fn test_ip_geo_checker_tested_data_set_ip() {
    let ip = parse_ipv4("192.0.2.1").unwrap();
    let data = IpGeoCheckerTestedData::default().set_ip(ip);
    assert_eq!(data.ip, ip);
}

#[test]
fn test_ip_geo_checker_tested_data_set_geoip() {
    let geoip = IpApiResponse::default();
    let data = IpGeoCheckerTestedData::default().set_geoip(geoip.clone());
    assert!(data.geoip.query == geoip.query);
}

#[test]
fn test_ip_geo_checker_tested_data_set_subnet() {
    let data = IpGeoCheckerTestedData::default().set_subnet("");
    assert_eq!(data.subnet, String::from(""));
}

#[test]
fn test_ip_geo_checker_tested_data_set_expected() {
    let data = IpGeoCheckerTestedData::default().set_expected("US");
    assert_eq!(data.expected, String::from("us"));
}

#[test]
fn test_ip_geo_checker_tested_data_set_actual() {
    let data = IpGeoCheckerTestedData::default().set_actual("US");
    assert_eq!(data.actual, String::from("us"));
}

#[test]
fn test_ip_geo_checker_tested_data_test_success() {
    let data = IpGeoCheckerTestedData::default().set_expected("US").set_actual("US");
    assert!(data.test().is_ok());
}

#[test]
fn test_ip_geo_checker_tested_data_test_failure() {
    let data = IpGeoCheckerTestedData::default().set_expected("US").set_actual("CA");
    assert!(data.test().is_err());
}

#[test]
fn test_comparison_is_case_insensitive() {
    let data = IpGeoCheckerTestedData::default().set_expected("US").set_actual("us");
    assert!(data.test().is_ok());
    let data = IpGeoCheckerTestedData::default().set_expected("us").set_actual("Us");
    assert!(data.test().is_ok());
}

#[test]
fn test_mismatch_detail_text() {
    let tested = IpGeoCheckerTestedData::default().set_expected("us").set_actual("CA").test();
    assert_eq!(tested.err(), Some(String::from("Expected: us, Actual: ca")));
    assert_eq!(tested.expected, String::from("us"));
    assert_eq!(tested.actual, String::from("ca"));
}

#[test]
fn test_non_letters_are_not_folded() {
    let data = IpGeoCheckerTestedData::default().set_expected("US ").set_actual("us");
    // the trailing blank is kept, not trimmed: the codes differ
    assert!(data.test().is_err());
}
