//! Wire format of the subnet-scoped DNS query and of its response.
//!
//! The query carries one address-record question with the recursion-desired
//! flag, plus an EDNS pseudo-record advertising a maximum UDP payload and a
//! client-subnet option holding the masked network prefix.  The response
//! parser checks the query identifier, requires a success code, skips the
//! echoed questions, and extracts every answer record; an answer that is not
//! an address record is a hard error, never silently skipped.

use vstd::prelude::*;

use crate::ip::Ipv4Addr;
use crate::ipv6::{IpCidr, Ipv6Addr};

verus! {

/// A character allowed inside a hostname label.
pub open spec fn is_hostname_char(c: char) -> bool {
    48 <= c as int <= 57 || 65 <= c as int <= 90 || 97 <= c as int <= 122 || c == '-' || c == '_'
}

/// The length of the hostname-character run starting at `i`.
pub open spec fn hostname_run(s: Seq<char>, i: int) -> int
    decreases s.len() - i when i <= s.len()
{
    if 0 <= i < s.len() && is_hostname_char(s[i]) {
        1 + hostname_run(s, i + 1)
    } else {
        0
    }
}

/// The labels of a domain name starting at `i`: dot-separated runs of
/// hostname characters, each between 1 and 63 characters, as their ASCII
/// bytes.  A trailing dot, an empty label or a stray character is an error.
pub open spec fn spec_parse_labels(s: Seq<char>, i: int) -> Option<Seq<Seq<u8>>>
    decreases s.len() - i when 0 <= i <= s.len()
{
    let n = hostname_run(s, i);
    if n < 1 || n > 63 {
        None
    } else {
        let label = s.subrange(i, i + n).map_values(|c: char| c as u8);
        if i + n == s.len() {
            Some(seq![label])
        } else if i + n < s.len() && s[i + n] == '.' {
            match spec_parse_labels(s, i + n + 1) {
                None => None,
                Some(rest) => Some(seq![label] + rest),
            }
        } else {
            None
        }
    }
}

/// The wire encoding of a name: each label preceded by its length, closed by
/// a zero byte.
pub open spec fn spec_encode_name(labels: Seq<Seq<u8>>) -> Seq<u8>
    decreases labels.len(),
{
    if labels.len() == 0 {
        seq![0u8]
    } else {
        seq![labels[0].len() as u8] + labels[0] + spec_encode_name(labels.drop_first())
    }
}

/// The encoded question name of a domain: `None` when the domain is not a
/// valid DNS name or its encoding would exceed 255 bytes.
pub open spec fn spec_qname(s: Seq<char>) -> Option<Seq<u8>> {
    match spec_parse_labels(s, 0) {
        None => None,
        Some(labels) => {
            let e = spec_encode_name(labels);
            if e.len() <= 255 {
                Some(e)
            } else {
                None
            }
        },
    }
}

/// A syntactically valid DNS name, as this library accepts it.
pub open spec fn valid_domain(s: Seq<char>) -> bool {
    spec_qname(s) is Some
}

/// The position right after the hostname-character run starting at `i`.
fn hostname_run_end(s: &str, i: usize) -> (j: usize)
    requires
        i <= s@.len(),
    ensures
        i <= j <= s@.len(),
        hostname_run(s@, i as int) == j - i,
{
    let n = s.unicode_len();
    let mut j: usize = i;
    while j < n
        invariant
            i <= j <= n,
            n == s@.len(),
            hostname_run(s@, i as int) == j - i + hostname_run(s@, j as int),
        decreases n - j,
    {
        let c = s.get_char(j);
        let code = c as u32;
        if !(48 <= code && code <= 57 || 65 <= code && code <= 90 || 97 <= code && code <= 122
            || c == '-' || c == '_') {
            return j;
        }
        j += 1;
    }
    j
}

/// Appends the wire encoding of the labels starting at `i`, as
/// `spec_parse_labels` reads them, without the closing zero byte.
fn encode_labels_rec(s: &str, i: usize, out: &mut Vec<u8>) -> (ok: bool)
    requires
        i <= s@.len(),
    ensures
        match spec_parse_labels(s@, i as int) {
            Some(labels) => ok && final(out)@ + seq![0u8] == old(out)@ + spec_encode_name(labels),
            None => !ok,
        },
    decreases s@.len() - i,
{
    let n = s.unicode_len();
    let j = hostname_run_end(s, i);
    let run = j - i;
    if run < 1 || run > 63 {
        return false;
    }
    out.push(run as u8);
    let mut k: usize = i;
    while k < j
        invariant
            i <= k <= j <= n,
            n == s@.len(),
            out@ == old(out)@ + seq![(j - i) as u8] + s@.subrange(i as int, k as int).map_values(
                |c: char| c as u8,
            ),
        decreases j - k,
    {
        let c = s.get_char(k);
        out.push(c as u8);
        proof {
            assert(s@.subrange(i as int, k + 1 as int).map_values(|ch: char| ch as u8) =~= s@
                .subrange(i as int, k as int).map_values(|ch: char| ch as u8).push(s@[k as int]
                as u8));
            assert(out@ =~= old(out)@ + seq![(j - i) as u8] + s@.subrange(i as int, k + 1 as int)
                .map_values(|ch: char| ch as u8));
        }
        k += 1;
    }
    let ghost label = s@.subrange(i as int, j as int).map_values(|c: char| c as u8);
    if j == n {
        proof {
            assert(spec_parse_labels(s@, i as int) == Some(seq![label]));
            assert(spec_encode_name(seq![label].drop_first()) == spec_encode_name(
                Seq::<Seq<u8>>::empty(),
            )) by {
                assert(seq![label].drop_first() =~= Seq::<Seq<u8>>::empty());
            }
            assert(out@ + seq![0u8] =~= old(out)@ + spec_encode_name(seq![label]));
        }
        return true;
    }
    if s.get_char(j) != '.' {
        return false;
    }
    let ok = encode_labels_rec(s, j + 1, out);
    proof {
        if ok {
            let rest = spec_parse_labels(s@, j + 1 as int).unwrap();
            let all = seq![label] + rest;
            assert(spec_parse_labels(s@, i as int) == Some(all));
            assert(all.drop_first() =~= rest);
            assert(spec_encode_name(all) == seq![label.len() as u8] + label + spec_encode_name(
                rest,
            ));
            assert(out@ + seq![0u8] =~= old(out)@ + spec_encode_name(all));
        }
    }
    ok
}

/// Encodes a domain as a wire-format question name.
pub fn encode_qname(s: &str) -> (r: Option<Vec<u8>>)
    ensures
        match r {
            Some(v) => spec_qname(s@) == Some(v@),
            None => spec_qname(s@) is None,
        },
{
    let mut out: Vec<u8> = Vec::new();
    let ok = encode_labels_rec(s, 0, &mut out);
    if !ok {
        return None;
    }
    out.push(0u8);
    if out.len() > 255 {
        return None;
    }
    Some(out)
}

/// Powers of two up to `128`.
pub open spec fn pow2_small(k: int) -> int {
    if k <= 0 {
        1
    } else if k == 1 {
        2
    } else if k == 2 {
        4
    } else if k == 3 {
        8
    } else if k == 4 {
        16
    } else if k == 5 {
        32
    } else if k == 6 {
        64
    } else {
        128
    }
}

/// An octet with only its `bits` most significant bits kept.
pub open spec fn mask_octet(b: u8, bits: int) -> u8 {
    (((b as int) / pow2_small(8 - bits)) * pow2_small(8 - bits)) as u8
}

/// The number of address octets the client-subnet option carries.
pub open spec fn ecs_addr_len(prefix: u8) -> int {
    (prefix + 7) / 8
}

/// The significant bits of octet `j` under `prefix`.
pub open spec fn octet_bits(prefix: u8, j: int) -> int {
    if prefix >= 8 * (j + 1) {
        8
    } else {
        prefix - 8 * j
    }
}

/// The octet `j` of an address, high first.
pub open spec fn octet_of(ip: Ipv4Addr, j: int) -> u8 {
    if j == 0 {
        ip.a
    } else if j == 1 {
        ip.b
    } else if j == 2 {
        ip.c
    } else {
        ip.d
    }
}

/// The network-prefix octets the client-subnet option carries: the covered
/// octets of the address, host bits zeroed.
pub open spec fn masked_octets(ip: Ipv4Addr, prefix: u8) -> Seq<u8> {
    Seq::new(ecs_addr_len(prefix) as nat, |j: int| mask_octet(octet_of(ip, j), octet_bits(prefix, j)))
}

fn mask_octet_exec(b: u8, bits: u8) -> (r: u8)
    requires
        1 <= bits <= 8,
    ensures
        r == mask_octet(b, bits as int),
{
    let sh = 8 - bits;
    let p: u8 = match sh {
        0 => 1,
        1 => 2,
        2 => 4,
        3 => 8,
        4 => 16,
        5 => 32,
        6 => 64,
        _ => 128,
    };
    proof {
        assert(p == pow2_small(8 - bits));
        assert((b as int / p as int) * (p as int) <= b as int) by (nonlinear_arith)
            requires 1 <= p as int <= 128, 0 <= b as int;
    }
    (b / p) * p
}

/// The prefix octets of the client-subnet option, as `masked_octets`.
fn ecs_octets(ip: &Ipv4Addr, prefix: u8) -> (r: Vec<u8>)
    requires
        prefix <= 32,
    ensures
        r@ == masked_octets(*ip, prefix),
{
    let n = ((prefix + 7) / 8) as usize;
    let mut out: Vec<u8> = Vec::new();
    let mut j: usize = 0;
    while j < n
        invariant
            j <= n,
            n == ecs_addr_len(prefix),
            prefix <= 32,
            out@ == masked_octets(*ip, prefix).take(j as int),
        decreases n - j,
    {
        let bits: u8 = if prefix >= 8 * (j as u8 + 1) {
            8
        } else {
            prefix - 8 * j as u8
        };
        let b: u8 = if j == 0 {
            ip.a
        } else if j == 1 {
            ip.b
        } else if j == 2 {
            ip.c
        } else {
            ip.d
        };
        out.push(mask_octet_exec(b, bits));
        proof {
            assert(out@ =~= masked_octets(*ip, prefix).take(j + 1 as int));
        }
        j += 1;
    }
    proof {
        assert(masked_octets(*ip, prefix).take(n as int) =~= masked_octets(*ip, prefix));
    }
    out
}

/// The network-prefix octets for an IPv6 client subnet: the covered octets
/// of the address, host bits zeroed.
pub open spec fn masked_octets_v6(a: Ipv6Addr, prefix: u8) -> Seq<u8> {
    Seq::new(ecs_addr_len(prefix) as nat, |j: int| mask_octet(a.octet(j), octet_bits(prefix, j)))
}

/// The octet at position `j` of an IPv6 address, as `Ipv6Addr::octet`.
fn v6_octet_exec(a: &Ipv6Addr, j: usize) -> (r: u8)
    requires
        j < 16,
    ensures
        r == a.octet(j as int),
{
    let g: u16 = match j / 2 {
        0 => a.g0,
        1 => a.g1,
        2 => a.g2,
        3 => a.g3,
        4 => a.g4,
        5 => a.g5,
        6 => a.g6,
        _ => a.g7,
    };
    if j % 2 == 0 {
        (g / 256) as u8
    } else {
        (g % 256) as u8
    }
}

/// The prefix octets of an IPv6 client-subnet option, as
/// `masked_octets_v6`.
fn ecs_octets_v6(a: &Ipv6Addr, prefix: u8) -> (r: Vec<u8>)
    requires
        prefix <= 128,
    ensures
        r@ == masked_octets_v6(*a, prefix),
{
    let n = ((prefix + 7) / 8) as usize;
    let mut out: Vec<u8> = Vec::new();
    let mut j: usize = 0;
    while j < n
        invariant
            j <= n,
            n == ecs_addr_len(prefix),
            prefix <= 128,
            out@ == masked_octets_v6(*a, prefix).take(j as int),
        decreases n - j,
    {
        let bits: u8 = if prefix >= 8 * (j as u8 + 1) {
            8
        } else {
            prefix - 8 * j as u8
        };
        let b = v6_octet_exec(a, j);
        out.push(mask_octet_exec(b, bits));
        proof {
            assert(out@ =~= masked_octets_v6(*a, prefix).take(j + 1 as int));
        }
        j += 1;
    }
    proof {
        assert(masked_octets_v6(*a, prefix).take(n as int) =~= masked_octets_v6(*a, prefix));
    }
    out
}

/// The whole query: header with the given identifier and the
/// recursion-desired flag, one address-record question for the name, and one
/// EDNS record with a 1232-byte payload advertisement carrying the
/// client-subnet option for the masked prefix of the given address family.
pub open spec fn spec_query_bytes_ecs(
    id: u16,
    qname: Seq<u8>,
    family: u8,
    prefix: u8,
    ecs: Seq<u8>,
) -> Seq<u8> {
    seq![
        (id / 256) as u8,
        (id % 256) as u8,
        1u8,
        0u8,
        0u8,
        1u8,
        0u8,
        0u8,
        0u8,
        0u8,
        0u8,
        1u8,
    ] + qname + seq![
        0u8,
        1u8,
        0u8,
        1u8,
        0u8,
        0u8,
        41u8,
        4u8,
        208u8,
        0u8,
        0u8,
        0u8,
        0u8,
        0u8,
        (8 + ecs.len()) as u8,
        0u8,
        8u8,
        0u8,
        (4 + ecs.len()) as u8,
        0u8,
        family,
        prefix,
        0u8,
    ] + ecs
}

/// The query for an IPv4 client subnet.
pub open spec fn spec_query_bytes(id: u16, qname: Seq<u8>, ip: Ipv4Addr, prefix: u8) -> Seq<u8> {
    spec_query_bytes_ecs(id, qname, 1, prefix, masked_octets(ip, prefix))
}

/// The query for an IPv6 client subnet.
pub open spec fn spec_query_bytes_v6(id: u16, qname: Seq<u8>, a: Ipv6Addr, prefix: u8) -> Seq<
    u8,
> {
    spec_query_bytes_ecs(id, qname, 2, prefix, masked_octets_v6(a, prefix))
}

/// The query for a client subnet of either family.
pub open spec fn spec_subnet_query_bytes(id: u16, qname: Seq<u8>, cidr: IpCidr) -> Seq<u8> {
    match cidr {
        IpCidr::V4(ip, p) => spec_query_bytes(id, qname, ip, p),
        IpCidr::V6(a, p) => spec_query_bytes_v6(id, qname, a, p),
    }
}

fn build_query_bytes_ecs(id: u16, qname: Vec<u8>, family: u8, prefix: u8, ecs: Vec<u8>) -> (r:
    Vec<u8>)
    requires
        ecs@.len() <= 16,
    ensures
        r@ == spec_query_bytes_ecs(id, qname@, family, prefix, ecs@),
{
    let ghost qname0 = qname@;
    let ghost ecs0 = ecs@;
    let mut out: Vec<u8> = Vec::new();
    out.push((id / 256) as u8);
    out.push((id % 256) as u8);
    out.push(1);
    out.push(0);
    out.push(0);
    out.push(1);
    out.push(0);
    out.push(0);
    out.push(0);
    out.push(0);
    out.push(0);
    out.push(1);
    let mut name = qname;
    out.append(&mut name);
    let mut ecs = ecs;
    let ecs_len = ecs.len() as u8;
    out.push(0);
    out.push(1);
    out.push(0);
    out.push(1);
    out.push(0);
    out.push(0);
    out.push(41);
    out.push(4);
    out.push(208);
    out.push(0);
    out.push(0);
    out.push(0);
    out.push(0);
    out.push(0);
    out.push(8 + ecs_len);
    out.push(0);
    out.push(8);
    out.push(0);
    out.push(4 + ecs_len);
    out.push(0);
    out.push(family);
    out.push(prefix);
    out.push(0);
    out.append(&mut ecs);
    proof {
        assert(out@ =~= spec_query_bytes_ecs(id, qname0, family, prefix, ecs0));
    }
    out
}

/// Builds the query for an already encoded question name and an IPv4
/// subnet.
pub fn build_query_bytes(id: u16, qname: Vec<u8>, ip: &Ipv4Addr, prefix: u8) -> (r: Vec<u8>)
    requires
        prefix <= 32,
    ensures
        r@ == spec_query_bytes(id, qname@, *ip, prefix),
{
    let ecs = ecs_octets(ip, prefix);
    build_query_bytes_ecs(id, qname, 1, prefix, ecs)
}

/// Builds the query for an already encoded question name and an IPv6
/// subnet.
pub fn build_query_bytes_v6(id: u16, qname: Vec<u8>, a: &Ipv6Addr, prefix: u8) -> (r: Vec<u8>)
    requires
        prefix <= 128,
    ensures
        r@ == spec_query_bytes_v6(id, qname@, *a, prefix),
{
    let ecs = ecs_octets_v6(a, prefix);
    build_query_bytes_ecs(id, qname, 2, prefix, ecs)
}

/// A big-endian 16-bit value at position `i`.
pub open spec fn be16(s: Seq<u8>, i: int) -> int {
    s[i] * 256 + s[i + 1]
}

/// The position after the name starting at `i`: a sequence of length-prefixed
/// labels ended by a zero byte or by a two-byte compression pointer.
pub open spec fn spec_skip_name(s: Seq<u8>, i: int) -> Option<int>
    decreases s.len() - i when 0 <= i <= s.len()
{
    if i >= s.len() {
        None
    } else if s[i] == 0 {
        Some(i + 1)
    } else if s[i] >= 192 {
        if i + 2 <= s.len() {
            Some(i + 2)
        } else {
            None
        }
    } else if s[i] < 64 {
        if i + 1 + s[i] <= s.len() {
            spec_skip_name(s, i + 1 + s[i])
        } else {
            None
        }
    } else {
        None
    }
}

/// The position after the `n` question entries starting at `i`.
pub open spec fn spec_skip_questions(s: Seq<u8>, i: int, n: int) -> Option<int>
    decreases n,
{
    if n <= 0 {
        Some(i)
    } else {
        match spec_skip_name(s, i) {
            None => None,
            Some(j) => if j + 4 <= s.len() {
                spec_skip_questions(s, j + 4, n - 1)
            } else {
                None
            },
        }
    }
}

/// One answer record at position `i`: its name skipped, it must be an
/// address record of four bytes; anything else is an error.
pub open spec fn spec_parse_answer(s: Seq<u8>, i: int) -> Option<(Ipv4Addr, int)> {
    match spec_skip_name(s, i) {
        None => None,
        Some(j) => if j + 10 <= s.len() && j + 10 + be16(s, j + 8) <= s.len() && be16(s, j) == 1
            && be16(s, j + 8) == 4 {
            Some(
                (
                    Ipv4Addr {
                        a: s[j + 10],
                        b: s[j + 11],
                        c: s[j + 12],
                        d: s[j + 13],
                    },
                    j + 14,
                ),
            )
        } else {
            None
        },
    }
}

/// The addresses of the `n` answer records starting at `i`.
pub open spec fn spec_parse_answers(s: Seq<u8>, i: int, n: int) -> Option<Seq<Ipv4Addr>>
    decreases n,
{
    if n <= 0 {
        Some(Seq::empty())
    } else {
        match spec_parse_answer(s, i) {
            None => None,
            Some((ip, j)) => match spec_parse_answers(s, j, n - 1) {
                None => None,
                Some(rest) => Some(seq![ip] + rest),
            },
        }
    }
}

/// The addresses answered to the query with the given identifier: the header
/// must carry that identifier, the response flag, and a success code; every
/// answer record must be an address record.
pub open spec fn spec_parse_response(s: Seq<u8>, id: u16) -> Option<Seq<Ipv4Addr>> {
    if s.len() < 12 {
        None
    } else if be16(s, 0) != id {
        None
    } else if s[2] < 128 {
        None
    } else if s[3] % 16 != 0 {
        None
    } else {
        match spec_skip_questions(s, 12, be16(s, 4)) {
            None => None,
            Some(i) => spec_parse_answers(s, i, be16(s, 6)),
        }
    }
}

/// The position after the name starting at `i`, as `spec_skip_name`.
fn skip_name(s: &Vec<u8>, i: usize) -> (r: Option<usize>)
    requires
        i <= s@.len(),
    ensures
        match r {
            Some(j) => spec_skip_name(s@, i as int) == Some(j as int) && i < j <= s@.len(),
            None => spec_skip_name(s@, i as int) is None,
        },
{
    let n = s.len();
    let mut p = i;
    loop
        invariant
            i <= p <= n,
            n == s@.len(),
            spec_skip_name(s@, i as int) == spec_skip_name(s@, p as int),
        decreases n - p,
    {
        if p >= n {
            return None;
        }
        let b = s[p];
        if b == 0 {
            return Some(p + 1);
        }
        if b >= 192 {
            if n - p >= 2 {
                return Some(p + 2);
            } else {
                return None;
            }
        }
        if b >= 64 {
            return None;
        }
        if (b as usize) > n - p - 1 {
            return None;
        }
        p = p + 1 + (b as usize);
    }
}

/// Extracts the answered addresses, as `spec_parse_response`.
pub fn parse_response(s: &Vec<u8>, id: u16) -> (r: Option<Vec<Ipv4Addr>>)
    ensures
        match r {
            Some(v) => spec_parse_response(s@, id) == Some(v@),
            None => spec_parse_response(s@, id) is None,
        },
{
    let n = s.len();
    if n < 12 {
        return None;
    }
    let got_id: u32 = (s[0] as u32) * 256 + (s[1] as u32);
    if got_id != id as u32 {
        return None;
    }
    if s[2] < 128 {
        return None;
    }
    if s[3] % 16 != 0 {
        return None;
    }
    let qd: usize = (s[4] as usize) * 256 + (s[5] as usize);
    let an: usize = (s[6] as usize) * 256 + (s[7] as usize);
    // skip the echoed questions
    let mut i: usize = 12;
    let mut q: usize = 0;
    while q < qd
        invariant
            i <= n,
            n == s@.len(),
            q <= qd,
            an == be16(s@, 6),
            spec_parse_response(s@, id) == (match spec_skip_questions(
                s@,
                i as int,
                (qd - q) as int,
            ) {
                Some(ii) => spec_parse_answers(s@, ii, an as int),
                None => None::<Seq<Ipv4Addr>>,
            }),
        decreases qd - q,
    {
        let j = match skip_name(s, i) {
            Some(j) => j,
            None => {
                return None;
            },
        };
        if n - j < 4 {
            return None;
        }
        i = j + 4;
        q += 1;
    }
    proof {
        assert(spec_skip_questions(s@, i as int, 0) == Some(i as int));
    }
    // parse the answers
    let mut out: Vec<Ipv4Addr> = Vec::new();
    let mut k: usize = 0;
    while k < an
        invariant
            i <= n,
            n == s@.len(),
            k <= an,
            spec_parse_response(s@, id) == (match spec_parse_answers(
                s@,
                i as int,
                (an - k) as int,
            ) {
                Some(rest) => Some(out@ + rest),
                None => None::<Seq<Ipv4Addr>>,
            }),
        decreases an - k,
    {
        let j = match skip_name(s, i) {
            Some(j) => j,
            None => {
                return None;
            },
        };
        if n - j < 10 {
            return None;
        }
        let rtype: u32 = (s[j] as u32) * 256 + (s[j + 1] as u32);
        let rdlen: usize = (s[j + 8] as usize) * 256 + (s[j + 9] as usize);
        if rdlen > n - j - 10 {
            return None;
        }
        if rtype != 1 || rdlen != 4 {
            return None;
        }
        let ip = Ipv4Addr { a: s[j + 10], b: s[j + 11], c: s[j + 12], d: s[j + 13] };
        proof {
            assert(spec_parse_answer(s@, i as int) == Some((ip, j + 14 as int)));
        }
        let ghost out_before = out@;
        out.push(ip);
        proof {
            let rest_after = spec_parse_answers(s@, j + 14 as int, (an - k - 1) as int);
            if rest_after is Some {
                assert(spec_parse_answers(s@, i as int, (an - k) as int) == Some(seq![ip]
                    + rest_after.unwrap()));
                assert(out_before + (seq![ip] + rest_after.unwrap()) =~= out@
                    + rest_after.unwrap());
            }
        }
        i = j + 14;
        k += 1;
    }
    proof {
        assert(spec_parse_answers(s@, i as int, 0) == Some(Seq::<Ipv4Addr>::empty()));
        assert(out@ + Seq::<Ipv4Addr>::empty() =~= out@);
    }
    Some(out)
}

} // verus!
