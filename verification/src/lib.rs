//! Verification engine for DNS-based geo-routing.
//!
//! For a set of configured domains, each paired with expected regions and
//! client subnets, the library prepares EDNS-client-subnet DNS queries,
//! extracts the addresses from the answers, maps them to countries through a
//! geolocation provider, and reduces every (domain, region, subnet) probe to a
//! pass/fail verification record.  All protocol construction, parsing and
//! comparison logic is verified; the callers supply the network and file I/O.

pub mod ascii;
pub mod configs_parser;
pub mod dns_client;
pub mod dns_codec;
pub mod errors;
pub mod ip;
pub mod ip_geo_checker;
pub mod ip_geo_client;
pub mod ipv6;
pub mod mmdb_client;
