use dns_geolocation_checker::ascii::validate_region;
use dns_geolocation_checker::configs_parser::{
    Config, DomainConfig, RegionSubnets, RoutingCountryConfig,
};
use dns_geolocation_checker::errors::ProbeError;
use dns_geolocation_checker::ip::{parse_ipv4, Ipv4Addr};
use dns_geolocation_checker::ip_geo_checker::{
    flatten_reports, partition_records, prepare_probe, records_for_probe, validate_batch,
    IpApiResponse, IpGeoChecker, ProbeReport, ProbeSpec,
};
use dns_geolocation_checker::ip_geo_client::{IpGeoProvider, IpGeoProviderType, NewProvider};

fn response(query: &str, country_code: &str) -> IpApiResponse {
    IpApiResponse {
        query: String::from(query),
        status: String::from("success"),
        country: String::from("country"),
        country_code: String::from(country_code),
        region: String::from("region"),
        region_name: String::from("region name"),
        city: String::from("city"),
        zip: String::from(""),
    }
}

fn probe(host: &str, subnet: &str, region: &str) -> ProbeSpec {
    ProbeSpec {
        host: String::from(host),
        subnet: String::from(subnet),
        expected_region: String::from(region),
    }
}

#[test]
fn test_end_to_end_match() {
    // the resolver answered 44.208.193.10 for the probe's subnet and the
    // provider placed that address in the US
    let p = probe("example.test", "44.208.193.0/24", "us");
    assert!(prepare_probe(&p).is_ok());
    let records = records_for_probe(&p, &vec![response("44.208.193.10", "US")]).unwrap();
    assert_eq!(records.len(), 1);
    assert_eq!(records[0].expected, String::from("us"));
    assert_eq!(records[0].actual, String::from("us"));
    assert!(records[0].err().is_none());
    assert_eq!(records[0].ip, Ipv4Addr::new(44, 208, 193, 10));
    assert_eq!(records[0].host, String::from("example.test"));
    assert_eq!(records[0].subnet, String::from("44.208.193.0/24"));
}

#[test]
fn test_end_to_end_mismatch() {
    let p = probe("example.test", "44.208.193.0/24", "us");
    let records = records_for_probe(&p, &vec![response("44.208.193.10", "CA")]).unwrap();
    assert_eq!(records.len(), 1);
    assert_eq!(records[0].err(), Some(String::from("Expected: us, Actual: ca")));
    assert_eq!(records[0].expected, String::from("us"));
    assert_eq!(records[0].actual, String::from("ca"));
}

#[test]
fn test_one_record_per_answer() {
    let p = probe("example.test", "44.208.193.0/24", "us");
    let answers = vec![
        response("44.208.193.10", "US"),
        response("44.208.193.11", "CA"),
        response("44.208.193.12", "us"),
    ];
    let records = records_for_probe(&p, &answers).unwrap();
    assert_eq!(records.len(), 3);
    assert!(records[0].is_ok());
    assert!(records[1].is_err());
    assert!(records[2].is_ok());
}

#[test]
fn test_malformed_echoed_address_fails_whole_probe() {
    let p = probe("example.test", "44.208.193.0/24", "us");
    let answers = vec![response("44.208.193.10", "US"), response("not-an-address", "US")];
    assert!(matches!(records_for_probe(&p, &answers), Err(ProbeError::LookupError)));
}

#[test]
fn test_invalid_subnet_yields_invalid_input() {
    let p = probe("example.test", "not_a_subnet", "us");
    assert_eq!(prepare_probe(&p).err(), Some(ProbeError::InvalidInput));
}

#[test]
fn test_invalid_region_token_yields_invalid_input() {
    assert_eq!(validate_region("us"), Ok(()));
    assert_eq!(validate_region("US"), Ok(()));
    assert_eq!(validate_region("US "), Err(ProbeError::InvalidInput));
    assert_eq!(validate_region(" us"), Err(ProbeError::InvalidInput));
    assert_eq!(validate_region(""), Err(ProbeError::InvalidInput));
    assert_eq!(validate_region("u s"), Err(ProbeError::InvalidInput));
    let p = probe("example.test", "44.208.193.0/24", "US ");
    assert_eq!(prepare_probe(&p).err(), Some(ProbeError::InvalidInput));
}

#[test]
fn test_faulted_probe_leaves_siblings_alone() {
    let good = probe("example.test", "44.208.193.0/24", "us");
    let records = records_for_probe(&good, &vec![response("44.208.193.10", "US")]).unwrap();
    let reports = vec![
        ProbeReport {
            probe: probe("example.test", "not_a_subnet", "us"),
            outcome: Err(ProbeError::InvalidInput),
        },
        ProbeReport { probe: good, outcome: Ok(records) },
    ];
    let all = flatten_reports(&reports);
    assert_eq!(all.len(), 1);
    assert!(all[0].is_ok());
}

#[test]
fn test_partition_splits_matched_and_mismatched() {
    let p = probe("example.test", "44.208.193.0/24", "us");
    let answers = vec![
        response("44.208.193.10", "US"),
        response("44.208.193.11", "CA"),
        response("44.208.193.12", "us"),
    ];
    let records = records_for_probe(&p, &answers).unwrap();
    let (passed, failed) = partition_records(&records);
    assert_eq!(passed.len(), 2);
    assert_eq!(failed.len(), 1);
    assert_eq!(failed[0].ip, Ipv4Addr::new(44, 208, 193, 11));
}

#[test]
fn test_batch_validation_counts_answers() {
    let ips = vec![Ipv4Addr::new(1, 1, 1, 1), Ipv4Addr::new(2, 2, 2, 2)];
    let two = vec![response("1.1.1.1", "US"), response("2.2.2.2", "US")];
    assert!(validate_batch(&ips, two).is_ok());
    let one = vec![response("1.1.1.1", "US")];
    assert!(matches!(validate_batch(&ips, one), Err(ProbeError::LookupError)));
}

#[test]
fn test_batch_validation_rejects_failed_answers() {
    let ips = vec![Ipv4Addr::new(1, 1, 1, 1)];
    let mut bad = response("1.1.1.1", "US");
    bad.status = String::from("fail");
    assert!(matches!(validate_batch(&ips, vec![bad]), Err(ProbeError::LookupError)));
}

fn config_for(host: &str, region: &str, subnets: Vec<&str>) -> Config {
    Config {
        ip_geo_provider: IpGeoProviderType::default(),
        mmdb_path: None,
        test_subnets: vec![RegionSubnets {
            region: String::from(region),
            routing: RoutingCountryConfig {
                subnets: subnets.into_iter().map(String::from).collect(),
            },
        }],
        domain: vec![DomainConfig {
            host: String::from(host),
            geo_routing: vec![String::from(region)],
        }],
    }
}

#[test]
fn test_probe_expansion() {
    let config = config_for("example.test", "us", vec!["44.208.193.0/24", "10.0.0.0/8"]);
    let checker = IpGeoChecker::new(reqwest::Client::new()).config(config).build();
    let probes = checker.probe_specs();
    assert_eq!(probes.len(), 2);
    assert_eq!(probes[0].host, String::from("example.test"));
    assert_eq!(probes[0].expected_region, String::from("us"));
    assert_eq!(probes[0].subnet, String::from("44.208.193.0/24"));
    assert_eq!(probes[1].subnet, String::from("10.0.0.0/8"));
}

#[test]
fn test_zero_domains_yield_zero_probes() {
    let checker = IpGeoChecker::new(reqwest::Client::new()).config(Config::default()).build();
    let probes = checker.probe_specs();
    assert_eq!(probes.len(), 0);
    let all = flatten_reports(&Vec::new());
    assert_eq!(all.len(), 0);
}

#[test]
fn test_region_lookup() {
    let config = config_for("example.test", "us", vec!["44.208.193.0/24"]);
    assert!(config.subnets_for_region("us").is_some());
    assert!(config.subnets_for_region("ca").is_none());
    assert_eq!(
        config.subnets_for_region("us").unwrap().subnets[0],
        String::from("44.208.193.0/24")
    );
}

#[test]
fn test_provider_type_names() {
    assert_eq!(IpGeoProviderType::default(), IpGeoProviderType::MMDB);
    assert_eq!(IpGeoProviderType::MMDB.name(), "MMDB");
    assert_eq!(IpGeoProviderType::IpApi.name(), "IP-API");
    assert_eq!(IpGeoProviderType::Disabled.name(), "None");
}

#[derive(Clone)]
struct FixedProvider {
    label: String,
}

impl NewProvider for FixedProvider {
    fn new(_config: &Config) -> Self {
        FixedProvider { label: String::from("fixed") }
    }

    fn get_provider_type(&self) -> String {
        self.label.clone()
    }
}

#[test]
fn test_provider_wrapper_forwards() {
    let config = Config::default();
    let provider: IpGeoProvider<FixedProvider> =
        dns_geolocation_checker::ip_geo_client::IpGeoClient::with_provider::<FixedProvider>(
            &config,
        );
    assert_eq!(provider.get_provider_type(), String::from("fixed"));
    let again = IpGeoProvider::new(provider.0.clone());
    assert_eq!(again.get_provider_type(), String::from("fixed"));
}

#[test]
fn test_error_descriptions() {
    assert_eq!(ProbeError::InvalidInput.describe(), "invalid input");
    assert_eq!(ProbeError::ResolutionError.describe(), "resolution error");
    assert_eq!(ProbeError::LookupError.describe(), "lookup error");
}

#[test]
fn test_expected_echoed_ip_parses_back() {
    let ip = parse_ipv4("44.208.193.10").unwrap();
    assert_eq!(ip, Ipv4Addr::new(44, 208, 193, 10));
}
