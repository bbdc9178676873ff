//! The offline geolocation provider: key lookups in a local MaxMind
//! database, loaded once at startup by the caller and read-only afterwards.
//!
//! The database decoding itself is the outside crate's work; this module
//! pins down what is done with its answers: which fields a usable record
//! must carry, how a record becomes a `IpApiResponse`, and that a batch
//! lookup answers every address or fails as a whole.

use vstd::prelude::*;

use crate::errors::ProbeError;
use crate::ip::{ipv4_chars, ipv4_to_string, lemma_ipv4_round_trip, spec_parse_ipv4, Ipv4Addr};
use crate::ip_geo_checker::IpApiResponse;

verus! {

/// The opened offline database.  `maxminddb::Reader` is generic over its
/// byte source under a bound that cannot be declared here, so the reader
/// sits behind this opaque struct; the caller opens the database file and
/// stores the reader in the public field.
#[verifier::external_body]
pub struct MmdbReader {
    pub reader: maxminddb::Reader<Vec<u8>>,
}

/// What the database holds for an address: `None` when no record is found
/// or it cannot be decoded; otherwise the record's country code, first
/// subdivision code and English city name, each of which the record may
/// lack.  The address is given as one integer, high octet first.
pub uninterp spec fn mmdb_city_fields(db: MmdbReader, ip: int) -> Option<
    (Option<Seq<char>>, Option<Seq<char>>, Option<Seq<char>>),
>;

/// Relies on `maxminddb::Reader::lookup` for `geoip2::City`: decodes the
/// city record the database holds for the address; the result is a function
/// of the database contents and the address alone.  Hands out the country
/// ISO code, the first subdivision's ISO code, and the English entry of the
/// city names; any lookup error, "not found" included, is `None`.
#[verifier::external_body]
fn lookup_city_fields(db: &MmdbReader, ip: &Ipv4Addr) -> (r: Option<
    (Option<String>, Option<String>, Option<String>),
>)
    ensures
        r.deep_view() == mmdb_city_fields(*db, ip.as_int()),
{
    let addr = core::net::IpAddr::V4(core::net::Ipv4Addr::new(ip.a, ip.b, ip.c, ip.d));
    match db.reader.lookup::<maxminddb::geoip2::City>(addr) {
        Ok(rec) => Some((
            rec.country.and_then(|c| c.iso_code).map(|s| s.to_string()),
            rec.subdivisions
                .and_then(|s| s.into_iter().next())
                .and_then(|s| s.iso_code)
                .map(|s| s.to_string()),
            rec.city.and_then(|c| c.names).and_then(|m| m.get("en").map(|s| s.to_string())),
        )),
        Err(_) => None,
    }
}

/// A database record usable for verification: present, with its country
/// code, subdivision code and city name all set.  A record missing any of
/// them is treated as a lookup failure, never as a partial answer.
pub open spec fn mmdb_has_full_record(db: MmdbReader, ip: Ipv4Addr) -> bool {
    match mmdb_city_fields(db, ip.as_int()) {
        Some(f) => f.0 is Some && f.1 is Some && f.2 is Some,
        None => false,
    }
}

/// How a provider answer is filled from the database record for `ip`: the
/// queried address echoed in canonical form, the country code doubling as
/// the country name, the subdivision as the region, the city name, and a
/// successful status; the remaining descriptive fields stay empty.
pub open spec fn mmdb_response_matches(db: MmdbReader, ip: Ipv4Addr, r: IpApiResponse) -> bool {
    match mmdb_city_fields(db, ip.as_int()) {
        Some(f) => {
            &&& r.query@ == ipv4_chars(ip)
            &&& r.status@ == "success"@
            &&& r.country@ == f.0.unwrap()
            &&& r.country_code@ == f.0.unwrap()
            &&& r.region@ == f.1.unwrap()
            &&& r.region_name@ == Seq::<char>::empty()
            &&& r.city@ == f.2.unwrap()
            &&& r.zip@ == Seq::<char>::empty()
        },
        None => false,
    }
}

/// An offline provider answer echoes its address in a form the record
/// builder parses back to the same address: feeding a batch answer into
/// `records_for_probe` never fails on the echoed address.
pub proof fn lemma_mmdb_query_parses(db: MmdbReader, ip: Ipv4Addr, r: IpApiResponse)
    requires
        mmdb_response_matches(db, ip, r),
    ensures
        spec_parse_ipv4(r.query@) == Some(ip),
{
    lemma_ipv4_round_trip(ip);
}

/// The offline provider: a shared, read-only database reader.
pub struct MMDBClient {
    pub reader: MmdbReader,
}

impl MMDBClient {
    /// Wraps an already opened database reader; opening the file is the
    /// caller's concern.
    pub fn new(reader: MmdbReader) -> (r: Self)
        ensures
            r.reader == reader,
    {
        MMDBClient { reader }
    }

    /// Looks one address up.  A missing record, or one without country
    /// code, subdivision or city name, is a `LookupError`.
    pub fn get_geoip_info(&self, ip: &Ipv4Addr) -> (r: Result<IpApiResponse, ProbeError>)
        ensures
            r is Ok <==> mmdb_has_full_record(self.reader, *ip),
            r is Ok ==> mmdb_response_matches(self.reader, *ip, r.unwrap()),
            r is Err ==> r == Err::<IpApiResponse, ProbeError>(ProbeError::LookupError),
    {
        match lookup_city_fields(&self.reader, ip) {
            Some((Some(country), Some(subdivision), Some(city))) => Ok(
                IpApiResponse {
                    query: ipv4_to_string(ip),
                    status: "success".to_owned(),
                    country: country.clone(),
                    country_code: country,
                    region: subdivision,
                    region_name: String::new(),
                    city,
                    zip: String::new(),
                },
            ),
            _ => Err(ProbeError::LookupError),
        }
    }

    /// Looks a batch of addresses up, one answer per address in order.  If
    /// any address has no usable record, the whole batch fails with
    /// `LookupError` and no partial result is returned.
    pub fn batch_get_ip_info(&self, ips: &Vec<Ipv4Addr>) -> (r: Result<
        Vec<IpApiResponse>,
        ProbeError,
    >)
        ensures
            r is Ok <==> (forall|i: int|
                0 <= i < ips@.len() ==> mmdb_has_full_record(self.reader, #[trigger] ips@[i])),
            r is Ok ==> r.unwrap()@.len() == ips@.len() && (forall|i: int|
                0 <= i < ips@.len() ==> mmdb_response_matches(
                    self.reader,
                    ips@[i],
                    #[trigger] r.unwrap()@[i],
                )),
            r is Err ==> r == Err::<Vec<IpApiResponse>, ProbeError>(ProbeError::LookupError),
    {
        let mut out: Vec<IpApiResponse> = Vec::new();
        let n = ips.len();
        let mut i: usize = 0;
        while i < n
            invariant
                i <= n,
                n == ips@.len(),
                out@.len() == i,
                forall|m: int| 0 <= m < i ==> mmdb_has_full_record(self.reader, #[trigger] ips@[m]),
                forall|m: int|
                    0 <= m < i ==> mmdb_response_matches(
                        self.reader,
                        ips@[m],
                        #[trigger] out@[m],
                    ),
            decreases n - i,
        {
            match self.get_geoip_info(&ips[i]) {
                Ok(resp) => {
                    out.push(resp);
                },
                Err(_) => {
                    return Err(ProbeError::LookupError);
                },
            }
            i += 1;
        }
        Ok(out)
    }
}

} // verus!
