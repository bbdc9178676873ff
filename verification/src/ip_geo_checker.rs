//! The probe orchestration: expanding the configuration into probes,
//! reducing resolver and provider answers to verification records, and
//! aggregating a run's outcome.
//!
//! Each probe is one linear pipeline: resolve the domain under the probe's
//! subnet, look the answered addresses up, compare the expected region to
//! each answer's country code.  The caller runs the probes concurrently and
//! hands every intermediate answer back to this module; faults abort only
//! the owning probe.

use vstd::prelude::*;

use crate::ascii::{lower_seq, region_matches, to_lowercase_ascii, valid_region, validate_region};
use crate::configs_parser::{spec_find_region, Config, DomainConfig, RegionSubnets};
use crate::dns_client::{build_subnet_query, DnsQuery, DnsResolver};
use crate::dns_codec::{spec_qname, spec_subnet_query_bytes, valid_domain};
use crate::errors::ProbeError;
use crate::ip::{parse_ipv4, spec_parse_ipv4, Ipv4Addr};
use crate::ipv6::spec_parse_subnet;

verus! {

/// The HTTP client handle of the remote-lookup variant.  The library only
/// carries it; the caller owns every request made with it.
#[verifier::external_type_specification]
#[verifier::external_body]
pub struct ExReqwestClient(reqwest::Client);

/// A geolocation answer for one address, as the lookup service reports it.
/// The country code is what verification compares; the rest is descriptive
/// and carried through.
#[derive(Clone, Debug)]
pub struct IpApiResponse {
    pub query: String,
    pub status: String,
    pub country: String,
    pub country_code: String,
    pub region: String,
    pub region_name: String,
    pub city: String,
    pub zip: String,
}

impl Default for IpApiResponse {
    fn default() -> (r: Self)
        ensures
            r.query@ == Seq::<char>::empty(),
            r.status@ == Seq::<char>::empty(),
            r.country@ == Seq::<char>::empty(),
            r.country_code@ == Seq::<char>::empty(),
            r.region@ == Seq::<char>::empty(),
            r.region_name@ == Seq::<char>::empty(),
            r.city@ == Seq::<char>::empty(),
            r.zip@ == Seq::<char>::empty(),
    {
        IpApiResponse {
            query: String::new(),
            status: String::new(),
            country: String::new(),
            country_code: String::new(),
            region: String::new(),
            region_name: String::new(),
            city: String::new(),
            zip: String::new(),
        }
    }
}

impl IpApiResponse {
    /// A copy equal to this answer.
    pub fn duplicate(&self) -> (r: Self)
        ensures
            r == *self,
    {
        IpApiResponse {
            query: self.query.clone(),
            status: self.status.clone(),
            country: self.country.clone(),
            country_code: self.country_code.clone(),
            region: self.region.clone(),
            region_name: self.region_name.clone(),
            city: self.city.clone(),
            zip: self.zip.clone(),
        }
    }
}

/// The failure detail of a mismatched record.
pub open spec fn mismatch_detail(expected: Seq<char>, actual: Seq<char>) -> Seq<char> {
    "Expected: "@ + expected + ", Actual: "@ + actual
}

/// The outcome of comparing one answered address against a probe's expected
/// region.  `error` is set exactly when the comparison failed.
#[derive(Clone, Debug)]
pub struct IpGeoCheckerTestedData {
    /// The host of the domain.
    pub host: String,
    /// The answered address this record is about.
    pub ip: Ipv4Addr,
    /// The geolocation answer for that address.
    pub geoip: IpApiResponse,
    /// The subnet the probe pretended to query from.
    pub subnet: String,
    /// The expected country code, lower case.
    pub expected: String,
    /// The answered country code, lower case.
    pub actual: String,
    /// The failure detail; absent exactly when expected and actual match.
    pub error: Option<String>,
}

impl Default for IpGeoCheckerTestedData {
    fn default() -> (r: Self)
        ensures
            r.host@ == Seq::<char>::empty(),
            r.ip == (Ipv4Addr { a: 0u8, b: 0u8, c: 0u8, d: 0u8 }),
            r.subnet@ == Seq::<char>::empty(),
            r.expected@ == Seq::<char>::empty(),
            r.actual@ == Seq::<char>::empty(),
            r.error is None,
    {
        IpGeoCheckerTestedData {
            host: String::new(),
            ip: Ipv4Addr::unspecified(),
            geoip: IpApiResponse::default(),
            subnet: String::new(),
            expected: String::new(),
            actual: String::new(),
            error: None,
        }
    }
}

impl IpGeoCheckerTestedData {
    pub fn set_host(self, host: &str) -> (r: Self)
        ensures
            r.host@ == host@,
            r.ip == self.ip,
            r.geoip == self.geoip,
            r.subnet == self.subnet,
            r.expected == self.expected,
            r.actual == self.actual,
            r.error == self.error,
    {
        IpGeoCheckerTestedData { host: host.to_owned(), ..self }
    }

    pub fn set_ip(self, ip: Ipv4Addr) -> (r: Self)
        ensures
            r.ip == ip,
            r.host == self.host,
            r.geoip == self.geoip,
            r.subnet == self.subnet,
            r.expected == self.expected,
            r.actual == self.actual,
            r.error == self.error,
    {
        IpGeoCheckerTestedData { ip, ..self }
    }

    pub fn set_geoip(self, geoip: IpApiResponse) -> (r: Self)
        ensures
            r.geoip == geoip,
            r.host == self.host,
            r.ip == self.ip,
            r.subnet == self.subnet,
            r.expected == self.expected,
            r.actual == self.actual,
            r.error == self.error,
    {
        IpGeoCheckerTestedData { geoip, ..self }
    }

    pub fn set_subnet(self, subnet: &str) -> (r: Self)
        ensures
            r.subnet@ == subnet@,
            r.host == self.host,
            r.ip == self.ip,
            r.geoip == self.geoip,
            r.expected == self.expected,
            r.actual == self.actual,
            r.error == self.error,
    {
        IpGeoCheckerTestedData { subnet: subnet.to_owned(), ..self }
    }

    /// Stores the expected country code, folded to lower case.
    pub fn set_expected(self, expected: &str) -> (r: Self)
        ensures
            r.expected@ == lower_seq(expected@),
            r.host == self.host,
            r.ip == self.ip,
            r.geoip == self.geoip,
            r.subnet == self.subnet,
            r.actual == self.actual,
            r.error == self.error,
    {
        IpGeoCheckerTestedData { expected: to_lowercase_ascii(expected), ..self }
    }

    /// Stores the answered country code, folded to lower case.
    pub fn set_actual(self, actual: &str) -> (r: Self)
        ensures
            r.actual@ == lower_seq(actual@),
            r.host == self.host,
            r.ip == self.ip,
            r.geoip == self.geoip,
            r.subnet == self.subnet,
            r.expected == self.expected,
            r.error == self.error,
    {
        IpGeoCheckerTestedData { actual: to_lowercase_ascii(actual), ..self }
    }

    /// Compares the expected and the actual country code: the result is this
    /// record with the failure detail set exactly when they differ.
    pub fn test(&self) -> (r: Self)
        ensures
            r.host == self.host,
            r.ip == self.ip,
            r.geoip == self.geoip,
            r.subnet == self.subnet,
            r.expected == self.expected,
            r.actual == self.actual,
            self.expected@ == self.actual@ ==> r.error is None,
            self.expected@ != self.actual@ ==> r.error is Some && r.error.unwrap()@
                == mismatch_detail(self.expected@, self.actual@),
    {
        let error: Option<String> = if self.expected == self.actual {
            None
        } else {
            let mut msg = String::new();
            msg.append("Expected: ");
            msg.append(self.expected.as_str());
            msg.append(", Actual: ");
            msg.append(self.actual.as_str());
            proof {
                assert(msg@ =~= mismatch_detail(self.expected@, self.actual@));
            }
            Some(msg)
        };
        IpGeoCheckerTestedData {
            host: self.host.clone(),
            ip: self.ip,
            geoip: self.geoip.duplicate(),
            subnet: self.subnet.clone(),
            expected: self.expected.clone(),
            actual: self.actual.clone(),
            error,
        }
    }

    pub fn is_err(&self) -> (r: bool)
        ensures
            r == (self.error is Some),
    {
        self.error.is_some()
    }

    pub fn is_ok(&self) -> (r: bool)
        ensures
            r == (self.error is None),
    {
        self.error.is_none()
    }

    pub fn err(&self) -> (r: Option<String>)
        ensures
            r == self.error,
    {
        match &self.error {
            Some(msg) => Some(msg.clone()),
            None => None,
        }
    }

    /// A copy equal to this record.
    pub fn duplicate(&self) -> (r: Self)
        ensures
            r == *self,
    {
        IpGeoCheckerTestedData {
            host: self.host.clone(),
            ip: self.ip,
            geoip: self.geoip.duplicate(),
            subnet: self.subnet.clone(),
            expected: self.expected.clone(),
            actual: self.actual.clone(),
            error: match &self.error {
                Some(msg) => Some(msg.clone()),
                None => None,
            },
        }
    }
}

/// How a record must relate to the probe and the geolocation answer it was
/// built from: the compared codes folded to lower case, and the failure
/// detail set exactly on a mismatch.
pub open spec fn record_matches(
    r: IpGeoCheckerTestedData,
    host: Seq<char>,
    ip: Ipv4Addr,
    geoip: IpApiResponse,
    subnet: Seq<char>,
    expected_raw: Seq<char>,
    actual_raw: Seq<char>,
) -> bool {
    &&& r.host@ == host
    &&& r.ip == ip
    &&& r.geoip == geoip
    &&& r.subnet@ == subnet
    &&& r.expected@ == lower_seq(expected_raw)
    &&& r.actual@ == lower_seq(actual_raw)
    &&& (region_matches(expected_raw, actual_raw) ==> r.error is None)
    &&& (!region_matches(expected_raw, actual_raw) ==> r.error is Some && r.error.unwrap()@
        == mismatch_detail(lower_seq(expected_raw), lower_seq(actual_raw)))
}

/// When the expected region and the answered country agree, up to case, the
/// record carries no failure detail.
pub proof fn lemma_match_yields_pass(
    r: IpGeoCheckerTestedData,
    host: Seq<char>,
    ip: Ipv4Addr,
    geoip: IpApiResponse,
    subnet: Seq<char>,
    expected_raw: Seq<char>,
    actual_raw: Seq<char>,
)
    requires
        record_matches(r, host, ip, geoip, subnet, expected_raw, actual_raw),
        region_matches(expected_raw, actual_raw),
    ensures
        r.error is None,
{
}

/// When they differ, up to case, the record carries a failure detail, and
/// both compared fields are already lower case.
pub proof fn lemma_mismatch_yields_detail(
    r: IpGeoCheckerTestedData,
    host: Seq<char>,
    ip: Ipv4Addr,
    geoip: IpApiResponse,
    subnet: Seq<char>,
    expected_raw: Seq<char>,
    actual_raw: Seq<char>,
)
    requires
        record_matches(r, host, ip, geoip, subnet, expected_raw, actual_raw),
        !region_matches(expected_raw, actual_raw),
    ensures
        r.error is Some,
        r.error.unwrap()@ == mismatch_detail(r.expected@, r.actual@),
        r.expected@ == lower_seq(r.expected@),
        r.actual@ == lower_seq(r.actual@),
{
    crate::ascii::lemma_lower_idempotent(expected_raw);
    crate::ascii::lemma_lower_idempotent(actual_raw);
}

/// Within one probe, answers that echo distinct address texts yield records
/// about distinct addresses: for a mismatching address, the flagged record
/// is the only record about it.
pub proof fn lemma_one_record_per_address(
    recs: Seq<IpGeoCheckerTestedData>,
    probe: ProbeSpec,
    responses: Seq<IpApiResponse>,
)
    requires
        recs.len() == responses.len(),
        forall|i: int|
            0 <= i < responses.len() ==> spec_parse_ipv4(
                (#[trigger] responses[i]).query@,
            ) is Some,
        forall|i: int|
            0 <= i < recs.len() ==> record_matches(
                #[trigger] recs[i],
                probe.host@,
                spec_parse_ipv4(responses[i].query@).unwrap(),
                responses[i],
                probe.subnet@,
                probe.expected_region@,
                responses[i].country_code@,
            ),
        forall|i: int, j: int|
            #![trigger responses[i], responses[j]]
            0 <= i < j < responses.len() ==> responses[i].query@ != responses[j].query@,
    ensures
        forall|i: int, j: int|
            #![trigger recs[i], recs[j]]
            0 <= i < j < recs.len() ==> recs[i].ip != recs[j].ip,
{
    assert forall|i: int, j: int|
        #![trigger recs[i], recs[j]]
        0 <= i < j < recs.len() implies recs[i].ip != recs[j].ip by {
        if recs[i].ip == recs[j].ip {
            crate::ip::lemma_parse_ipv4_injective(responses[i].query@, responses[j].query@);
        }
    }
}

/// A per-domain summary a consumer may build: the domain, the answers
/// gathered for it, the expected region, and whether they agreed.
#[derive(Debug)]
pub struct IpGeoCheckerResult {
    pub domain: DomainConfig,
    pub geoip: Vec<IpApiResponse>,
    pub expected: String,
    pub actual: bool,
}

/// One unit of verification work: a domain, the subnet to pretend to query
/// from, and the region expected to answer.
#[derive(Clone, Debug)]
pub struct ProbeSpec {
    pub host: String,
    pub subnet: String,
    pub expected_region: String,
}

/// The probes for one region of one domain: one per configured subnet, in
/// order.
pub open spec fn spec_probes_of_region(host: String, region: String, subnets: Seq<String>) -> Seq<
    ProbeSpec,
>
    decreases subnets.len(),
{
    if subnets.len() == 0 {
        Seq::empty()
    } else {
        seq![ProbeSpec { host: host, subnet: subnets[0], expected_region: region }]
            + spec_probes_of_region(host, region, subnets.drop_first())
    }
}

/// The probes for one domain: its regions in order, each region's subnets in
/// order.  A region absent from the table contributes nothing.
pub open spec fn spec_probes_of_domain(
    host: String,
    regions: Seq<String>,
    table: Seq<RegionSubnets>,
) -> Seq<ProbeSpec>
    decreases regions.len(),
{
    if regions.len() == 0 {
        Seq::empty()
    } else {
        (match spec_find_region(table, regions[0]@) {
            Some(entry) => spec_probes_of_region(host, regions[0], entry.routing.subnets@),
            None => Seq::empty(),
        }) + spec_probes_of_domain(host, regions.drop_first(), table)
    }
}

/// All probes of a run: the cross product of every domain, its expected
/// regions, and each region's configured subnets.
pub open spec fn spec_expand(domains: Seq<DomainConfig>, table: Seq<RegionSubnets>) -> Seq<
    ProbeSpec,
>
    decreases domains.len(),
{
    if domains.len() == 0 {
        Seq::empty()
    } else {
        spec_probes_of_domain(domains[0].host, domains[0].geo_routing@, table) + spec_expand(
            domains.drop_first(),
            table,
        )
    }
}

/// A run with no configured domains has no probes at all, whatever the
/// region table holds: its result list is empty, not an error.
pub proof fn lemma_no_domains_no_probes(domains: Seq<DomainConfig>, table: Seq<RegionSubnets>)
    requires
        domains.len() == 0,
    ensures
        spec_expand(domains, table) == Seq::<ProbeSpec>::empty(),
{
}

/// Every region some domain routes to has an entry in the table.
pub open spec fn all_regions_configured(
    domains: Seq<DomainConfig>,
    table: Seq<RegionSubnets>,
) -> bool {
    forall|i: int, j: int|
        0 <= i < domains.len() && 0 <= j < domains[i].geo_routing@.len() ==> spec_find_region(
            table,
            (#[trigger] domains[i].geo_routing@[j])@,
        ) is Some
}

fn push_probes_of_region(
    host: &String,
    region: &String,
    subnets: &Vec<String>,
    k: usize,
    out: &mut Vec<ProbeSpec>,
)
    requires
        k <= subnets@.len(),
    ensures
        final(out)@ == old(out)@ + spec_probes_of_region(*host, *region, subnets@.skip(k as int)),
    decreases subnets@.len() - k,
{
    if k == subnets.len() {
        proof {
            assert(subnets@.skip(k as int) =~= Seq::<String>::empty());
            assert(out@ =~= out@ + spec_probes_of_region(*host, *region, subnets@.skip(k as int)));
        }
        return;
    }
    out.push(
        ProbeSpec {
            host: host.clone(),
            subnet: subnets[k].clone(),
            expected_region: region.clone(),
        },
    );
    push_probes_of_region(host, region, subnets, k + 1, out);
    proof {
        let s = subnets@.skip(k as int);
        assert(s[0] == subnets@[k as int]);
        assert(s.drop_first() =~= subnets@.skip(k + 1 as int));
        assert(final(out)@ =~= old(out)@ + spec_probes_of_region(*host, *region, s));
    }
}

fn push_probes_of_domain(
    host: &String,
    regions: &Vec<String>,
    config: &Config,
    j: usize,
    out: &mut Vec<ProbeSpec>,
)
    requires
        j <= regions@.len(),
        forall|m: int|
            0 <= m < regions@.len() ==> spec_find_region(
                config.test_subnets@,
                (#[trigger] regions@[m])@,
            ) is Some,
    ensures
        final(out)@ == old(out)@ + spec_probes_of_domain(
            *host,
            regions@.skip(j as int),
            config.test_subnets@,
        ),
    decreases regions@.len() - j,
{
    if j == regions.len() {
        proof {
            assert(regions@.skip(j as int) =~= Seq::<String>::empty());
            assert(out@ =~= out@ + spec_probes_of_domain(
                *host,
                regions@.skip(j as int),
                config.test_subnets@,
            ));
        }
        return;
    }
    let region = &regions[j];
    let found = config.subnets_for_region(region.as_str());
    if let Some(rc) = found {
        push_probes_of_region(host, region, &rc.subnets, 0, out);
        proof {
            assert(rc.subnets@.skip(0) =~= rc.subnets@);
        }
    } else {
        proof {
            assert(spec_find_region(config.test_subnets@, regions@[j as int]@) is Some);
            assert(false);
        }
    }
    push_probes_of_domain(host, regions, config, j + 1, out);
    proof {
        let s = regions@.skip(j as int);
        assert(s[0] == regions@[j as int]);
        assert(s.drop_first() =~= regions@.skip(j + 1 as int));
        assert(final(out)@ =~= old(out)@ + spec_probes_of_domain(
            *host,
            s,
            config.test_subnets@,
        ));
    }
}

fn push_probes_of_config(config: &Config, i: usize, out: &mut Vec<ProbeSpec>)
    requires
        i <= config.domain@.len(),
        all_regions_configured(config.domain@, config.test_subnets@),
    ensures
        final(out)@ == old(out)@ + spec_expand(config.domain@.skip(i as int), config.test_subnets@),
    decreases config.domain@.len() - i,
{
    if i == config.domain.len() {
        proof {
            assert(config.domain@.skip(i as int) =~= Seq::<DomainConfig>::empty());
            assert(out@ =~= out@ + spec_expand(config.domain@.skip(i as int), config.test_subnets@));
        }
        return;
    }
    let domain = &config.domain[i];
    proof {
        assert forall|m: int| 0 <= m < domain.geo_routing@.len() implies spec_find_region(
            config.test_subnets@,
            (#[trigger] domain.geo_routing@[m])@,
        ) is Some by {
            assert(spec_find_region(
                config.test_subnets@,
                config.domain@[i as int].geo_routing@[m]@,
            ) is Some);
        }
    }
    push_probes_of_domain(&domain.host, &domain.geo_routing, config, 0, out);
    push_probes_of_config(config, i + 1, out);
    proof {
        let s = config.domain@.skip(i as int);
        assert(s[0] == config.domain@[i as int]);
        assert(s.drop_first() =~= config.domain@.skip(i + 1 as int));
        assert(domain.geo_routing@.skip(0) =~= domain.geo_routing@);
        assert(final(out)@ =~= old(out)@ + spec_expand(s, config.test_subnets@));
    }
}

/// Assembles a checker from its collaborators: the HTTP client handle, the
/// resolver choice, and the configuration.
pub struct IpGeoCheckerBuilder {
    pub client: reqwest::Client,
    pub dns_resolver: DnsResolver,
    pub config: Config,
}

impl IpGeoCheckerBuilder {
    pub fn new(client: reqwest::Client) -> (r: Self)
        ensures
            r.client == client,
            r.dns_resolver == DnsResolver::Google,
            r.config.test_subnets@.len() == 0,
            r.config.domain@.len() == 0,
    {
        IpGeoCheckerBuilder {
            client,
            dns_resolver: DnsResolver::Google,
            config: Config::default(),
        }
    }

    pub fn config(self, config: Config) -> (r: Self)
        ensures
            r.config == config,
            r.client == self.client,
            r.dns_resolver == self.dns_resolver,
    {
        IpGeoCheckerBuilder { config, ..self }
    }

    pub fn dns_resolver(self, dns_resolver: DnsResolver) -> (r: Self)
        ensures
            r.dns_resolver == dns_resolver,
            r.client == self.client,
            r.config == self.config,
    {
        IpGeoCheckerBuilder { dns_resolver, ..self }
    }

    pub fn build(self) -> (r: IpGeoChecker)
        ensures
            r.client == self.client,
            r.dns_resolver == self.dns_resolver,
            r.config == self.config,
    {
        IpGeoChecker {
            client: self.client,
            dns_resolver: self.dns_resolver,
            config: self.config,
        }
    }
}

/// The checker for one run: shares one resolver choice, one provider handle
/// and one configuration across every probe.
pub struct IpGeoChecker {
    pub client: reqwest::Client,
    pub dns_resolver: DnsResolver,
    pub config: Config,
}

impl IpGeoChecker {
    pub fn new(client: reqwest::Client) -> (r: IpGeoCheckerBuilder)
        ensures
            r.client == client,
            r.dns_resolver == DnsResolver::Google,
            r.config.test_subnets@.len() == 0,
            r.config.domain@.len() == 0,
    {
        IpGeoCheckerBuilder::new(client)
    }

    /// Expands the configuration into the run's probes: one per
    /// (domain, region, subnet) combination, in configuration order.  With
    /// no configured domains the result is empty.
    pub fn probe_specs(&self) -> (r: Vec<ProbeSpec>)
        requires
            all_regions_configured(self.config.domain@, self.config.test_subnets@),
        ensures
            r@ == spec_expand(self.config.domain@, self.config.test_subnets@),
    {
        let mut out: Vec<ProbeSpec> = Vec::new();
        push_probes_of_config(&self.config, 0, &mut out);
        proof {
            assert(self.config.domain@.skip(0) =~= self.config.domain@);
        }
        out
    }
}

/// Validates one probe's inputs and builds its query.  The region token,
/// the domain and the subnet are all checked here, before anything is sent:
/// a failure is `InvalidInput` and the probe produces no records.
pub fn prepare_probe(probe: &ProbeSpec) -> (r: Result<DnsQuery, ProbeError>)
    ensures
        r is Ok <==> valid_region(probe.expected_region@) && valid_domain(probe.host@)
            && spec_parse_subnet(probe.subnet@) is Some,
        r is Err ==> r == Err::<DnsQuery, ProbeError>(ProbeError::InvalidInput),
        r is Ok ==> r.unwrap().bytes@ == spec_subnet_query_bytes(
            r.unwrap().id,
            spec_qname(probe.host@).unwrap(),
            spec_parse_subnet(probe.subnet@).unwrap(),
        ),
{
    if let Err(e) = validate_region(probe.expected_region.as_str()) {
        return Err(e);
    }
    build_subnet_query(probe.host.as_str(), probe.subnet.as_str())
}

/// Builds one record per geolocation answer, comparing the probe's expected
/// region to each answer's country code.  An answer whose echoed address
/// does not parse is a malformed record: the whole probe fails with
/// `LookupError` and no partial records are returned.
pub fn records_for_probe(probe: &ProbeSpec, responses: &Vec<IpApiResponse>) -> (r: Result<
    Vec<IpGeoCheckerTestedData>,
    ProbeError,
>)
    ensures
        r is Ok <==> (forall|i: int|
            0 <= i < responses@.len() ==> spec_parse_ipv4(
                (#[trigger] responses@[i]).query@,
            ) is Some),
        r is Ok ==> r.unwrap()@.len() == responses@.len() && (forall|i: int|
            0 <= i < responses@.len() ==> record_matches(
                #[trigger] r.unwrap()@[i],
                probe.host@,
                spec_parse_ipv4(responses@[i].query@).unwrap(),
                responses@[i],
                probe.subnet@,
                probe.expected_region@,
                responses@[i].country_code@,
            )),
        r is Err ==> r == Err::<Vec<IpGeoCheckerTestedData>, ProbeError>(ProbeError::LookupError),
{
    let mut recs: Vec<IpGeoCheckerTestedData> = Vec::new();
    let n = responses.len();
    let mut i: usize = 0;
    while i < n
        invariant
            i <= n,
            n == responses@.len(),
            recs@.len() == i,
            forall|m: int|
                0 <= m < i ==> spec_parse_ipv4((#[trigger] responses@[m]).query@) is Some,
            forall|m: int|
                0 <= m < i ==> record_matches(
                    #[trigger] recs@[m],
                    probe.host@,
                    spec_parse_ipv4(responses@[m].query@).unwrap(),
                    responses@[m],
                    probe.subnet@,
                    probe.expected_region@,
                    responses@[m].country_code@,
                ),
        decreases n - i,
    {
        let resp = &responses[i];
        let ip = match parse_ipv4(resp.query.as_str()) {
            Some(ip) => ip,
            None => {
                return Err(ProbeError::LookupError);
            },
        };
        let rec = IpGeoCheckerTestedData::default().set_host(probe.host.as_str()).set_ip(
            ip,
        ).set_geoip(resp.duplicate()).set_subnet(probe.subnet.as_str()).set_expected(
            probe.expected_region.as_str(),
        ).set_actual(resp.country_code.as_str()).test();
        recs.push(rec);
        i += 1;
    }
    Ok(recs)
}

/// One probe's outcome: its records, or the fault that aborted it.  Faults
/// stay in the aggregated result; they are never dropped.
#[derive(Debug)]
pub struct ProbeReport {
    pub probe: ProbeSpec,
    pub outcome: Result<Vec<IpGeoCheckerTestedData>, ProbeError>,
}

/// The records of the reports, flattened in report order; a faulted probe
/// contributes none.
pub open spec fn spec_flatten(reports: Seq<ProbeReport>) -> Seq<IpGeoCheckerTestedData>
    decreases reports.len(),
{
    if reports.len() == 0 {
        Seq::empty()
    } else {
        (match reports[0].outcome {
            Ok(v) => v@,
            Err(_) => Seq::empty(),
        }) + spec_flatten(reports.drop_first())
    }
}

fn push_flattened(reports: &Vec<ProbeReport>, k: usize, out: &mut Vec<IpGeoCheckerTestedData>)
    requires
        k <= reports@.len(),
    ensures
        final(out)@ == old(out)@ + spec_flatten(reports@.skip(k as int)),
    decreases reports@.len() - k,
{
    if k == reports.len() {
        proof {
            assert(reports@.skip(k as int) =~= Seq::<ProbeReport>::empty());
            assert(out@ =~= out@ + spec_flatten(reports@.skip(k as int)));
        }
        return;
    }
    let ghost out_entry = out@;
    match &reports[k].outcome {
        Ok(v) => {
            let m = v.len();
            let mut j: usize = 0;
            while j < m
                invariant
                    j <= m,
                    m == v@.len(),
                    out@ == out_entry + v@.take(j as int),
                decreases m - j,
            {
                out.push(v[j].duplicate());
                proof {
                    assert(out@ =~= out_entry + v@.take(j + 1 as int));
                }
                j += 1;
            }
            proof {
                assert(v@.take(m as int) =~= v@);
            }
        },
        Err(_) => {},
    }
    push_flattened(reports, k + 1, out);
    proof {
        let s = reports@.skip(k as int);
        assert(s[0] == reports@[k as int]);
        assert(s.drop_first() =~= reports@.skip(k + 1 as int));
        assert(final(out)@ =~= old(out)@ + spec_flatten(s));
    }
}

/// Flattens a run's reports into its full record list, in report order.
/// With no reports the result is empty.
pub fn flatten_reports(reports: &Vec<ProbeReport>) -> (r: Vec<IpGeoCheckerTestedData>)
    ensures
        r@ == spec_flatten(reports@),
{
    let mut out: Vec<IpGeoCheckerTestedData> = Vec::new();
    push_flattened(reports, 0, &mut out);
    proof {
        assert(reports@.skip(0) =~= reports@);
    }
    out
}

/// The records without failure detail, in order.
pub open spec fn spec_passed(records: Seq<IpGeoCheckerTestedData>) -> Seq<IpGeoCheckerTestedData>
    decreases records.len(),
{
    if records.len() == 0 {
        Seq::empty()
    } else {
        (if records[0].error is None {
            seq![records[0]]
        } else {
            Seq::empty()
        }) + spec_passed(records.drop_first())
    }
}

/// The records with failure detail, in order.
pub open spec fn spec_failed(records: Seq<IpGeoCheckerTestedData>) -> Seq<IpGeoCheckerTestedData>
    decreases records.len(),
{
    if records.len() == 0 {
        Seq::empty()
    } else {
        (if records[0].error is Some {
            seq![records[0]]
        } else {
            Seq::empty()
        }) + spec_failed(records.drop_first())
    }
}

fn push_partitioned(
    records: &Vec<IpGeoCheckerTestedData>,
    k: usize,
    passed: &mut Vec<IpGeoCheckerTestedData>,
    failed: &mut Vec<IpGeoCheckerTestedData>,
)
    requires
        k <= records@.len(),
    ensures
        final(passed)@ == old(passed)@ + spec_passed(records@.skip(k as int)),
        final(failed)@ == old(failed)@ + spec_failed(records@.skip(k as int)),
    decreases records@.len() - k,
{
    if k == records.len() {
        proof {
            assert(records@.skip(k as int) =~= Seq::<IpGeoCheckerTestedData>::empty());
            assert(passed@ =~= passed@ + spec_passed(records@.skip(k as int)));
            assert(failed@ =~= failed@ + spec_failed(records@.skip(k as int)));
        }
        return;
    }
    let rec = &records[k];
    if rec.is_ok() {
        passed.push(rec.duplicate());
    } else {
        failed.push(rec.duplicate());
    }
    push_partitioned(records, k + 1, passed, failed);
    proof {
        let s = records@.skip(k as int);
        assert(s[0] == records@[k as int]);
        assert(s.drop_first() =~= records@.skip(k + 1 as int));
        assert(final(passed)@ =~= old(passed)@ + spec_passed(s));
        assert(final(failed)@ =~= old(failed)@ + spec_failed(s));
    }
}

/// Partitioning loses nothing: every record lands in exactly one of the two
/// subsets.
pub proof fn lemma_partition_complete(records: Seq<IpGeoCheckerTestedData>)
    ensures
        spec_passed(records).len() + spec_failed(records).len() == records.len(),
    decreases records.len(),
{
    if records.len() > 0 {
        lemma_partition_complete(records.drop_first());
    }
}

/// Splits a run's records into the matched and the mismatched subset, as a
/// reporting consumer displays them.
pub fn partition_records(records: &Vec<IpGeoCheckerTestedData>) -> (r: (
    Vec<IpGeoCheckerTestedData>,
    Vec<IpGeoCheckerTestedData>,
))
    ensures
        r.0@ == spec_passed(records@),
        r.1@ == spec_failed(records@),
{
    let mut passed: Vec<IpGeoCheckerTestedData> = Vec::new();
    let mut failed: Vec<IpGeoCheckerTestedData> = Vec::new();
    push_partitioned(records, 0, &mut passed, &mut failed);
    proof {
        assert(records@.skip(0) =~= records@);
    }
    (passed, failed)
}

/// Checks a remote batch answer: exactly one answer per queried address,
/// every answer marked successful.  Anything else fails the whole batch
/// with `LookupError`; no partial result is passed on.
pub fn validate_batch(ips: &Vec<Ipv4Addr>, responses: Vec<IpApiResponse>) -> (r: Result<
    Vec<IpApiResponse>,
    ProbeError,
>)
    ensures
        r is Ok <==> responses@.len() == ips@.len() && (forall|i: int|
            0 <= i < responses@.len() ==> (#[trigger] responses@[i]).status@ == "success"@),
        r is Ok ==> r.unwrap() == responses,
        r is Err ==> r == Err::<Vec<IpApiResponse>, ProbeError>(ProbeError::LookupError),
{
    if responses.len() != ips.len() {
        return Err(ProbeError::LookupError);
    }
    let n = responses.len();
    let mut i: usize = 0;
    while i < n
        invariant
            i <= n,
            n == responses@.len(),
            forall|m: int| 0 <= m < i ==> (#[trigger] responses@[m]).status@ == "success"@,
        decreases n - i,
    {
        if !crate::ascii::str_eq(responses[i].status.as_str(), "success") {
            return Err(ProbeError::LookupError);
        }
        i += 1;
    }
    Ok(responses)
}

} // verus!
