use dns_geolocation_checker::dns_client::{
    build_subnet_query, extract_answers, DnsResolver, DnsServerAddr, ServerAddr,
};
use dns_geolocation_checker::errors::ProbeError;
use dns_geolocation_checker::ip::{parse_ipv4, parse_ipv4_cidr, ipv4_to_string, Ipv4Addr};
use dns_geolocation_checker::ipv6::{parse_subnet, IpCidr, Ipv6Addr};

#[test]
fn test_dns_server_addr_google() {
    let google = DnsServerAddr::Google.addr();
    assert_eq!(google, ServerAddr { ip: Ipv4Addr::new(8, 8, 8, 8), port: 53 });
}

#[test]
fn test_dns_server_addr_cloudflare() {
    let cloudflare = DnsServerAddr::CloudFlare.addr();
    assert_eq!(cloudflare, ServerAddr { ip: Ipv4Addr::new(1, 1, 1, 1), port: 53 });
}

#[test]
fn test_dns_server_addr_custom() {
    let custom_addr = ServerAddr { ip: Ipv4Addr::new(192, 168, 1, 1), port: 8080 };
    let custom = DnsServerAddr::Custom(custom_addr).addr();
    assert_eq!(custom, custom_addr);
}

#[test]
fn test_resolve_with_subnet_invalid_subnet() {
    let result = build_subnet_query("example.com", "not_a_subnet");
    assert!(result.is_err());
    assert_eq!(result.err(), Some(ProbeError::InvalidInput));
}

#[test]
fn test_resolver_server_mapping() {
    assert_eq!(DnsResolver::Google.server(), DnsServerAddr::Google);
    assert_eq!(DnsResolver::CloudFlare.server(), DnsServerAddr::CloudFlare);
    let custom = ServerAddr { ip: Ipv4Addr::new(10, 0, 0, 1), port: 5353 };
    assert_eq!(DnsResolver::Custom(custom).server(), DnsServerAddr::Custom(custom));
}

#[test]
fn test_parse_ipv4_accepts_dotted_quads() {
    assert_eq!(parse_ipv4("192.0.2.1"), Some(Ipv4Addr::new(192, 0, 2, 1)));
    assert_eq!(parse_ipv4("0.0.0.0"), Some(Ipv4Addr::new(0, 0, 0, 0)));
    assert_eq!(parse_ipv4("255.255.255.255"), Some(Ipv4Addr::new(255, 255, 255, 255)));
}

#[test]
fn test_parse_ipv4_rejects_malformed_text() {
    assert_eq!(parse_ipv4(""), None);
    assert_eq!(parse_ipv4("256.1.1.1"), None);
    assert_eq!(parse_ipv4("01.2.3.4"), None);
    assert_eq!(parse_ipv4("1.2.3"), None);
    assert_eq!(parse_ipv4("1.2.3.4.5"), None);
    assert_eq!(parse_ipv4("1.2.3.4 "), None);
    assert_eq!(parse_ipv4("a.b.c.d"), None);
}

#[test]
fn test_parse_cidr() {
    assert_eq!(parse_ipv4_cidr("44.208.193.0/24"), Some((Ipv4Addr::new(44, 208, 193, 0), 24)));
    assert_eq!(parse_ipv4_cidr("24.24.24.24/24"), Some((Ipv4Addr::new(24, 24, 24, 24), 24)));
    assert_eq!(parse_ipv4_cidr("10.0.0.0/0"), Some((Ipv4Addr::new(10, 0, 0, 0), 0)));
    assert_eq!(parse_ipv4_cidr("1.2.3.4/33"), None);
    assert_eq!(parse_ipv4_cidr("1.2.3.4/"), None);
    assert_eq!(parse_ipv4_cidr("1.2.3.4"), None);
    assert_eq!(parse_ipv4_cidr("not_a_subnet"), None);
}

#[test]
fn test_ipv4_to_string_prints_canonical_form() {
    assert_eq!(ipv4_to_string(&Ipv4Addr::new(8, 8, 128, 1)), String::from("8.8.128.1"));
    assert_eq!(ipv4_to_string(&Ipv4Addr::new(0, 0, 0, 0)), String::from("0.0.0.0"));
    assert_eq!(ipv4_to_string(&Ipv4Addr::new(255, 10, 0, 99)), String::from("255.10.0.99"));
}

#[test]
fn test_query_carries_masked_subnet() {
    // /24 keeps three octets; the host octet is cut off entirely
    let q = build_subnet_query("example.com", "24.24.24.24/24").unwrap();
    let tail = &q.bytes[q.bytes.len() - 7..];
    assert_eq!(tail, &[0, 1, 24, 0, 24, 24, 24]);
    // /22 masks the third octet down to its top six bits
    let q = build_subnet_query("example.com", "44.208.193.0/22").unwrap();
    let tail = &q.bytes[q.bytes.len() - 7..];
    assert_eq!(tail, &[0, 1, 22, 0, 44, 208, 192]);
}

#[test]
fn test_query_layout() {
    let q = build_subnet_query("example.com", "1.2.3.4/32").unwrap();
    let b = &q.bytes;
    assert_eq!(b[0] as u16 * 256 + b[1] as u16, q.id);
    // recursion desired; one question; one additional record
    assert_eq!(&b[2..12], &[1, 0, 0, 1, 0, 0, 0, 0, 0, 1]);
    // the question name: "example" and "com" as length-prefixed labels
    assert_eq!(&b[12..25], &[7, 101, 120, 97, 109, 112, 108, 101, 3, 99, 111, 109, 0]);
    // address-record question, internet class
    assert_eq!(&b[25..29], &[0, 1, 0, 1]);
}

#[test]
fn test_rejects_bad_domains() {
    assert!(build_subnet_query("", "1.2.3.4/24").is_err());
    assert!(build_subnet_query(".", "1.2.3.4/24").is_err());
    assert!(build_subnet_query("example..com", "1.2.3.4/24").is_err());
    assert!(build_subnet_query("exa mple.com", "1.2.3.4/24").is_err());
    assert!(build_subnet_query("example.com.", "1.2.3.4/24").is_err());
}

fn v6(groups: [u16; 8]) -> Ipv6Addr {
    Ipv6Addr {
        g0: groups[0],
        g1: groups[1],
        g2: groups[2],
        g3: groups[3],
        g4: groups[4],
        g5: groups[5],
        g6: groups[6],
        g7: groups[7],
    }
}

#[test]
fn test_parse_subnet_both_families() {
    assert_eq!(
        parse_subnet("44.208.193.0/24"),
        Some(IpCidr::V4(Ipv4Addr::new(44, 208, 193, 0), 24))
    );
    assert_eq!(
        parse_subnet("2001:db8::/32"),
        Some(IpCidr::V6(v6([0x2001, 0x0db8, 0, 0, 0, 0, 0, 0]), 32))
    );
    assert_eq!(parse_subnet("::1/128"), Some(IpCidr::V6(v6([0, 0, 0, 0, 0, 0, 0, 1]), 128)));
    assert_eq!(parse_subnet("::/0"), Some(IpCidr::V6(v6([0, 0, 0, 0, 0, 0, 0, 0]), 0)));
    assert_eq!(
        parse_subnet("1:2:3:4:5:6:7:8/64"),
        Some(IpCidr::V6(v6([1, 2, 3, 4, 5, 6, 7, 8]), 64))
    );
    assert_eq!(
        parse_subnet("fe80::a:1/10"),
        Some(IpCidr::V6(v6([0xfe80, 0, 0, 0, 0, 0, 0xa, 1]), 10))
    );
    assert_eq!(parse_subnet("2001:db8::"), None); // no prefix length
    assert_eq!(parse_subnet(":::1/64"), None);
    assert_eq!(parse_subnet("1::2::3/64"), None);
    assert_eq!(parse_subnet("1:2:3/64"), None);
    assert_eq!(parse_subnet("1:2:3:4:5:6:7:8:9/64"), None);
    assert_eq!(parse_subnet("12345::/64"), None);
    assert_eq!(parse_subnet("g::1/64"), None);
    assert_eq!(parse_subnet("1::2/129"), None);
    assert_eq!(parse_subnet("not_a_subnet"), None);
}

#[test]
fn test_query_carries_masked_v6_subnet() {
    let q = build_subnet_query("example.com", "2001:db8::/32").unwrap();
    let tail = &q.bytes[q.bytes.len() - 8..];
    assert_eq!(tail, &[0, 2, 32, 0, 0x20, 0x01, 0x0d, 0xb8]);
    // /34 keeps two more bits of the fifth octet
    let q = build_subnet_query("example.com", "2001:db8:ffff::/34").unwrap();
    let tail = &q.bytes[q.bytes.len() - 9..];
    assert_eq!(tail, &[0, 2, 34, 0, 0x20, 0x01, 0x0d, 0xb8, 0xc0]);
}

fn response_with(id: u16, answers: &[(u16, &[u8])]) -> Vec<u8> {
    let mut b = vec![
        (id / 256) as u8,
        (id % 256) as u8,
        0x81,
        0x80,
        0,
        1,
        0,
        answers.len() as u8,
        0,
        0,
        0,
        0,
    ];
    // the echoed question: example.com A IN
    b.extend_from_slice(&[7, 101, 120, 97, 109, 112, 108, 101, 3, 99, 111, 109, 0, 0, 1, 0, 1]);
    for (rtype, rdata) in answers {
        b.extend_from_slice(&[0xC0, 0x0C]); // name: pointer to the question
        b.extend_from_slice(&[(rtype / 256) as u8, (rtype % 256) as u8]);
        b.extend_from_slice(&[0, 1, 0, 0, 0, 60]); // class IN, one-minute TTL
        b.extend_from_slice(&[0, rdata.len() as u8]);
        b.extend_from_slice(rdata);
    }
    b
}

#[test]
fn test_extract_answers_reads_addresses() {
    let reply = response_with(7, &[(1, &[93, 184, 216, 34]), (1, &[93, 184, 216, 35])]);
    let ips = extract_answers(&reply, 7).unwrap();
    assert_eq!(
        ips,
        vec![Ipv4Addr::new(93, 184, 216, 34), Ipv4Addr::new(93, 184, 216, 35)]
    );
}

#[test]
fn test_extract_answers_rejects_wrong_id() {
    let reply = response_with(7, &[(1, &[93, 184, 216, 34])]);
    assert_eq!(extract_answers(&reply, 8), Err(ProbeError::ResolutionError));
}

#[test]
fn test_extract_answers_rejects_non_address_record() {
    // an alias record among the answers is a hard error, not skipped
    let reply = response_with(7, &[(5, &[3, 119, 119, 119, 0])]);
    assert_eq!(extract_answers(&reply, 7), Err(ProbeError::ResolutionError));
}

#[test]
fn test_extract_answers_rejects_error_code() {
    let mut reply = response_with(7, &[]);
    reply[3] = 0x83; // name error
    assert_eq!(extract_answers(&reply, 7), Err(ProbeError::ResolutionError));
}
