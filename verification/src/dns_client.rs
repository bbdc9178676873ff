//! The resolver endpoints and the construction of one subnet-scoped query.
//!
//! The caller owns the UDP round trip: it sends the bytes that
//! `build_subnet_query` produced to the chosen endpoint, receives the reply,
//! and hands the reply bytes to `extract_answers`.

use vstd::prelude::*;

use crate::dns_codec::{spec_parse_response, spec_qname, spec_subnet_query_bytes, valid_domain};
use crate::dns_codec::{encode_qname, parse_response};
use crate::errors::ProbeError;
use crate::ip::Ipv4Addr;
use crate::ipv6::{parse_subnet, spec_parse_subnet, IpCidr};

verus! {

/// A resolver endpoint: an IPv4 address and a UDP port.
#[derive(Clone, Copy, Debug, PartialEq, Eq, Structural)]
pub struct ServerAddr {
    pub ip: Ipv4Addr,
    pub port: u16,
}

/// The upstream DNS server queries are sent to: one of two well-known public
/// resolvers, or a custom endpoint.
#[derive(Clone, Copy, Debug, PartialEq, Eq, Structural)]
pub enum DnsServerAddr {
    Google,
    CloudFlare,
    Custom(ServerAddr),
}

impl DnsServerAddr {
    /// The endpoint this choice stands for.
    pub open spec fn spec_addr(self) -> ServerAddr {
        match self {
            DnsServerAddr::Google => ServerAddr {
                ip: Ipv4Addr { a: 8, b: 8, c: 8, d: 8 },
                port: 53,
            },
            DnsServerAddr::CloudFlare => ServerAddr {
                ip: Ipv4Addr { a: 1, b: 1, c: 1, d: 1 },
                port: 53,
            },
            DnsServerAddr::Custom(addr) => addr,
        }
    }

    pub fn addr(&self) -> (r: ServerAddr)
        ensures
            r == self.spec_addr(),
    {
        match *self {
            DnsServerAddr::Google => ServerAddr { ip: Ipv4Addr::new(8, 8, 8, 8), port: 53 },
            DnsServerAddr::CloudFlare => ServerAddr { ip: Ipv4Addr::new(1, 1, 1, 1), port: 53 },
            DnsServerAddr::Custom(addr) => addr,
        }
    }
}

/// The resolver a run connects to; the connection itself is the caller's.
#[derive(Clone, Copy, Debug, PartialEq, Eq, Structural)]
pub enum DnsResolver {
    Google,
    CloudFlare,
    Custom(ServerAddr),
}

impl DnsResolver {
    /// The server this resolver choice connects to.
    pub fn server(&self) -> (r: DnsServerAddr)
        ensures
            *self == DnsResolver::Google ==> r == DnsServerAddr::Google,
            *self == DnsResolver::CloudFlare ==> r == DnsServerAddr::CloudFlare,
            forall|a: ServerAddr| *self == DnsResolver::Custom(a) ==> r == DnsServerAddr::Custom(a),
    {
        match *self {
            DnsResolver::Google => DnsServerAddr::Google,
            DnsResolver::CloudFlare => DnsServerAddr::CloudFlare,
            DnsResolver::Custom(addr) => DnsServerAddr::Custom(addr),
        }
    }
}

/// Relies on `rand::random`: draws a value of the standard distribution from
/// the thread-local generator.  Nothing is promised of the value.
pub assume_specification<T>[ rand::random::<T> ]() -> (r: T)
    where
        rand::distributions::Standard: rand::distributions::Distribution<T>,
;

/// One query ready to send: the bytes carry the identifier, so that the
/// response can be correlated to it.
pub struct DnsQuery {
    pub id: u16,
    pub bytes: Vec<u8>,
}

/// Validates the domain and the subnet and builds the query: an
/// address-record question under a client-subnet option for the parsed
/// prefix of either address family, with a freshly drawn identifier.  A
/// malformed domain or subnet is `InvalidInput`, found before anything is
/// sent.
pub fn build_subnet_query(domain: &str, subnet: &str) -> (r: Result<DnsQuery, ProbeError>)
    ensures
        r is Ok <==> valid_domain(domain@) && spec_parse_subnet(subnet@) is Some,
        r is Err ==> r == Err::<DnsQuery, ProbeError>(ProbeError::InvalidInput),
        r is Ok ==> r.unwrap().bytes@ == spec_subnet_query_bytes(
            r.unwrap().id,
            spec_qname(domain@).unwrap(),
            spec_parse_subnet(subnet@).unwrap(),
        ),
{
    let qname = match encode_qname(domain) {
        Some(v) => v,
        None => {
            return Err(ProbeError::InvalidInput);
        },
    };
    let cidr = match parse_subnet(subnet) {
        Some(c) => c,
        None => {
            return Err(ProbeError::InvalidInput);
        },
    };
    let id: u16 = rand::random();
    let bytes = match cidr {
        IpCidr::V4(ip, prefix) => crate::dns_codec::build_query_bytes(id, qname, &ip, prefix),
        IpCidr::V6(a, prefix) => crate::dns_codec::build_query_bytes_v6(id, qname, &a, prefix),
    };
    Ok(DnsQuery { id, bytes })
}

/// Reads the resolver's reply to the query with the given identifier and
/// extracts every answered address.  A failed correlation, an error code or
/// a non-address answer record is a `ResolutionError`.
pub fn extract_answers(reply: &Vec<u8>, id: u16) -> (r: Result<Vec<Ipv4Addr>, ProbeError>)
    ensures
        r is Ok <==> spec_parse_response(reply@, id) is Some,
        r is Ok ==> r.unwrap()@ == spec_parse_response(reply@, id).unwrap(),
        r is Err ==> r == Err::<Vec<Ipv4Addr>, ProbeError>(ProbeError::ResolutionError),
{
    match parse_response(reply, id) {
        Some(v) => Ok(v),
        None => Err(ProbeError::ResolutionError),
    }
}

} // verus!
