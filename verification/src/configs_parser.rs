//! The run configuration: domains with their expected geo routing, and the
//! table of test subnets per region.
//!
//! Loading the configuration from a file is the caller's concern; the
//! library receives it as plain values.  The region table is a list of
//! entries looked up by region token, first match first.

use vstd::prelude::*;

use crate::ascii::str_eq;
use crate::ip_geo_client::IpGeoProviderType;

verus! {

/// The subnets configured for one region.
#[derive(Clone, Debug)]
pub struct RoutingCountryConfig {
    pub subnets: Vec<String>,
}

/// One domain and the regions its answers are expected to fall in.
#[derive(Clone, Debug)]
pub struct DomainConfig {
    pub host: String,
    pub geo_routing: Vec<String>,
}

/// One entry of the region table: a region token and its subnets.
#[derive(Clone, Debug)]
pub struct RegionSubnets {
    pub region: String,
    pub routing: RoutingCountryConfig,
}

/// The whole run configuration.
#[derive(Clone, Debug)]
pub struct Config {
    /// The geolocation provider to use.
    pub ip_geo_provider: IpGeoProviderType,
    /// Where the offline geolocation database lives, if one is used.
    pub mmdb_path: Option<String>,
    /// The table mapping region tokens to their test subnets.
    pub test_subnets: Vec<RegionSubnets>,
    /// The domains to verify, each with its expected geo routing.
    pub domain: Vec<DomainConfig>,
}

impl Default for Config {
    fn default() -> (r: Self)
        ensures
            r.ip_geo_provider == IpGeoProviderType::MMDB,
            r.mmdb_path is None,
            r.test_subnets@.len() == 0,
            r.domain@.len() == 0,
    {
        Config {
            ip_geo_provider: IpGeoProviderType::MMDB,
            mmdb_path: None,
            test_subnets: Vec::new(),
            domain: Vec::new(),
        }
    }
}

/// The first entry of the table whose region token equals `region`.
pub open spec fn spec_find_region(table: Seq<RegionSubnets>, region: Seq<char>) -> Option<
    RegionSubnets,
>
    decreases table.len(),
{
    if table.len() == 0 {
        None
    } else if table[0].region@ == region {
        Some(table[0])
    } else {
        spec_find_region(table.drop_first(), region)
    }
}

impl Config {
    /// Looks the region token up in the test-subnet table.
    pub fn subnets_for_region(&self, region: &str) -> (r: Option<&RoutingCountryConfig>)
        ensures
            match r {
                Some(rc) => {
                    &&& spec_find_region(self.test_subnets@, region@) is Some
                    &&& *rc == spec_find_region(self.test_subnets@, region@).unwrap().routing
                },
                None => spec_find_region(self.test_subnets@, region@) is None,
            },
    {
        let n = self.test_subnets.len();
        proof {
            assert(self.test_subnets@.skip(0) =~= self.test_subnets@);
        }
        let mut i: usize = 0;
        while i < n
            invariant
                i <= n,
                n == self.test_subnets@.len(),
                spec_find_region(self.test_subnets@, region@) == spec_find_region(
                    self.test_subnets@.skip(i as int),
                    region@,
                ),
            decreases n - i,
        {
            proof {
                assert(self.test_subnets@.skip(i as int)[0] == self.test_subnets@[i as int]);
                assert(self.test_subnets@.skip(i as int).drop_first() =~= self.test_subnets@.skip(
                    i + 1 as int,
                ));
            }
            if str_eq(self.test_subnets[i].region.as_str(), region) {
                return Some(&self.test_subnets[i].routing);
            }
            i += 1;
        }
        proof {
            assert(self.test_subnets@.skip(n as int) =~= Seq::<RegionSubnets>::empty());
        }
        None
    }
}

} // verus!
