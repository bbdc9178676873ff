//! The library's model of an IPv6 address, the parser for its text form,
//! and the subnet type uniting both address families.
//!
//! A subnet string is first read as an IPv4 prefix; a string with colon
//! groups is read as an IPv6 prefix.  The accepted IPv6 text form is the
//! usual one: up to eight groups of one to four hexadecimal digits separated
//! by single colons, with at most one `::` standing for the omitted zero
//! groups.

use vstd::prelude::*;

use crate::ip::{
    digit_run, digit_run_end, digits_value, digits_value_exec, is_digit, lemma_digit_run_digits,
    spec_parse_cidr, Ipv4Addr,
};

verus! {

/// An IPv6 address as eight 16-bit groups, high first.
#[derive(Clone, Copy, Debug, PartialEq, Eq, Structural)]
pub struct Ipv6Addr {
    pub g0: u16,
    pub g1: u16,
    pub g2: u16,
    pub g3: u16,
    pub g4: u16,
    pub g5: u16,
    pub g6: u16,
    pub g7: u16,
}

impl Ipv6Addr {
    /// The group at position `k`.
    pub open spec fn group(self, k: int) -> u16 {
        if k == 0 {
            self.g0
        } else if k == 1 {
            self.g1
        } else if k == 2 {
            self.g2
        } else if k == 3 {
            self.g3
        } else if k == 4 {
            self.g4
        } else if k == 5 {
            self.g5
        } else if k == 6 {
            self.g6
        } else {
            self.g7
        }
    }

    /// The octet at position `j`, high first.
    pub open spec fn octet(self, j: int) -> u8 {
        if j % 2 == 0 {
            (self.group(j / 2) / 256) as u8
        } else {
            (self.group(j / 2) % 256) as u8
        }
    }
}

/// A hexadecimal digit, upper or lower case.
pub open spec fn is_hex_digit(c: char) -> bool {
    is_digit(c) || 97 <= c as int <= 102 || 65 <= c as int <= 70
}

/// The value of a hexadecimal digit.
pub open spec fn hex_val(c: char) -> int {
    if is_digit(c) {
        c as int - 48
    } else if 97 <= c as int <= 102 {
        c as int - 87
    } else {
        c as int - 55
    }
}

/// The length of the hexadecimal-digit run starting at `i`.
pub open spec fn hex_run(s: Seq<char>, i: int) -> int
    decreases s.len() - i when i <= s.len()
{
    if 0 <= i < s.len() && is_hex_digit(s[i]) {
        1 + hex_run(s, i + 1)
    } else {
        0
    }
}

/// The value of the hexadecimal digits `s[i .. i + n]`, most significant
/// first.
pub open spec fn hex_value(s: Seq<char>, i: int, n: int) -> int
    decreases n,
{
    if n <= 0 {
        0
    } else {
        hex_value(s, i, n - 1) * 16 + hex_val(s[i + n - 1])
    }
}

/// Every position inside a hexadecimal run holds a hexadecimal digit.
proof fn lemma_hex_run_digits(s: Seq<char>, i: int)
    requires
        0 <= i <= s.len(),
    ensures
        i + hex_run(s, i) <= s.len(),
        forall|k: int| i <= k < i + hex_run(s, i) ==> is_hex_digit(#[trigger] s[k]),
    decreases s.len() - i,
{
    if i < s.len() && is_hex_digit(s[i]) {
        lemma_hex_run_digits(s, i + 1);
    }
}

/// One group at position `i`: one to four hexadecimal digits; leading
/// zeros are allowed.
pub open spec fn spec_parse_group(s: Seq<char>, i: int) -> Option<(u16, int)> {
    let n = hex_run(s, i);
    if 1 <= n <= 4 {
        Some((hex_value(s, i, n) as u16, i + n))
    } else {
        None
    }
}

/// The groups filling exactly `s[i .. end]`, separated by single colons.
pub open spec fn spec_parse_groups(s: Seq<char>, i: int, end: int) -> Option<Seq<u16>>
    decreases end - i when 0 <= i <= end <= s.len()
{
    match spec_parse_group(s, i) {
        None => None,
        Some((g, j)) => if j == end {
            Some(seq![g])
        } else if j < end && s[j] == ':' {
            match spec_parse_groups(s, j + 1, end) {
                None => None,
                Some(rest) => Some(seq![g] + rest),
            }
        } else {
            None
        },
    }
}

/// The first position in `[i, end)` holding the given character.
pub open spec fn spec_find_char(s: Seq<char>, i: int, end: int, c: char) -> Option<int>
    decreases end - i when i <= end
{
    if i < 0 || i >= end {
        None
    } else if s[i] == c {
        Some(i)
    } else {
        spec_find_char(s, i + 1, end, c)
    }
}

/// The first position in `[i, end - 1)` where two colons meet.
pub open spec fn spec_find_double_colon(s: Seq<char>, i: int, end: int) -> Option<int>
    decreases end - i when i <= end
{
    if i < 0 || i + 1 >= end {
        None
    } else if s[i] == ':' && s[i + 1] == ':' {
        Some(i)
    } else {
        spec_find_double_colon(s, i + 1, end)
    }
}

/// The group at position `k` of the address whose written groups are
/// `front`, then omitted zeros, then `back`.
pub open spec fn spec_group_at(front: Seq<u16>, back: Seq<u16>, k: int) -> u16 {
    if k < front.len() {
        front[k]
    } else if k >= 8 - back.len() {
        back[k - (8 - back.len())]
    } else {
        0
    }
}

/// The address assembled from the written groups.
pub open spec fn spec_assemble(front: Seq<u16>, back: Seq<u16>) -> Ipv6Addr {
    Ipv6Addr {
        g0: spec_group_at(front, back, 0),
        g1: spec_group_at(front, back, 1),
        g2: spec_group_at(front, back, 2),
        g3: spec_group_at(front, back, 3),
        g4: spec_group_at(front, back, 4),
        g5: spec_group_at(front, back, 5),
        g6: spec_group_at(front, back, 6),
        g7: spec_group_at(front, back, 7),
    }
}

/// An IPv6 address filling exactly `s[0 .. end]`: eight colon-separated
/// groups, or at most seven with one `::` for the omitted zero groups.
pub open spec fn spec_parse_ipv6(s: Seq<char>, end: int) -> Option<Ipv6Addr> {
    match spec_find_double_colon(s, 0, end) {
        None => match spec_parse_groups(s, 0, end) {
            None => None,
            Some(gs) => if gs.len() == 8 {
                Some(spec_assemble(gs, Seq::empty()))
            } else {
                None
            },
        },
        Some(k) => if spec_find_double_colon(s, k + 1, end) is Some {
            None
        } else {
            let front = if k == 0 {
                Some(Seq::<u16>::empty())
            } else {
                spec_parse_groups(s, 0, k)
            };
            let back = if k + 2 == end {
                Some(Seq::<u16>::empty())
            } else {
                spec_parse_groups(s, k + 2, end)
            };
            match (front, back) {
                (Some(f), Some(b)) => if f.len() + b.len() <= 7 {
                    Some(spec_assemble(f, b))
                } else {
                    None
                },
                _ => None,
            }
        },
    }
}

/// A prefix length for an IPv6 network: at most three digits, no leading
/// zero, value at most 128.
pub open spec fn spec_parse_prefix128(s: Seq<char>, i: int) -> Option<(u8, int)> {
    let n = digit_run(s, i);
    if 1 <= n <= 3 && digits_value(s, i, n) <= 128 && (n > 1 ==> s[i] != '0') {
        Some((digits_value(s, i, n) as u8, i + n))
    } else {
        None
    }
}

/// A whole string holding exactly one IPv6 CIDR prefix, `address/len`.
pub open spec fn spec_parse_cidr_v6(s: Seq<char>) -> Option<(Ipv6Addr, u8)> {
    match spec_find_char(s, 0, s.len() as int, '/') {
        None => None,
        Some(sl) => match spec_parse_ipv6(s, sl) {
            None => None,
            Some(a) => match spec_parse_prefix128(s, sl + 1) {
                None => None,
                Some((p, j)) => if j == s.len() {
                    Some((a, p))
                } else {
                    None
                },
            },
        },
    }
}

/// A client subnet of either address family.
#[derive(Clone, Copy, Debug, PartialEq, Eq, Structural)]
pub enum IpCidr {
    V4(Ipv4Addr, u8),
    V6(Ipv6Addr, u8),
}

/// A subnet string of either family: a dotted-quad prefix, or a
/// colon-group prefix.
pub open spec fn spec_parse_subnet(s: Seq<char>) -> Option<IpCidr> {
    match spec_parse_cidr(s) {
        Some((ip, p)) => Some(IpCidr::V4(ip, p)),
        None => match spec_parse_cidr_v6(s) {
            Some((a, p)) => Some(IpCidr::V6(a, p)),
            None => None,
        },
    }
}

/// The position right after the hexadecimal run starting at `i`.
fn hex_run_end(s: &str, i: usize) -> (j: usize)
    requires
        i <= s@.len(),
    ensures
        i <= j <= s@.len(),
        hex_run(s@, i as int) == j - i,
{
    let n = s.unicode_len();
    let mut j: usize = i;
    while j < n
        invariant
            i <= j <= n,
            n == s@.len(),
            hex_run(s@, i as int) == j - i + hex_run(s@, j as int),
        decreases n - j,
    {
        let code = s.get_char(j) as u32;
        if !(48 <= code && code <= 57 || 97 <= code && code <= 102 || 65 <= code && code <= 70) {
            return j;
        }
        j += 1;
    }
    j
}

/// The value of the hexadecimal digits `s[i .. i + n]`, which the caller
/// has already found to be hexadecimal digits.
fn hex_value_exec(s: &str, i: usize, n: usize) -> (v: u32)
    requires
        i + n <= s@.len(),
        i + n <= usize::MAX,
        n <= 4,
        n <= hex_run(s@, i as int),
    ensures
        v == hex_value(s@, i as int, n as int),
        v < 0x10000,
{
    proof {
        lemma_hex_run_digits(s@, i as int);
    }
    let mut v: u32 = 0;
    let mut k: usize = 0;
    while k < n
        invariant
            k <= n <= 4,
            i + n <= s@.len(),
            i + n <= usize::MAX,
            forall|m: int| i <= m < i + n ==> is_hex_digit(#[trigger] s@[m]),
            v == hex_value(s@, i as int, k as int),
            v < 0x10000,
            k < 4 ==> v < 0x1000,
            k < 3 ==> v < 0x100,
            k < 2 ==> v < 0x10,
            k < 1 ==> v == 0,
        decreases n - k,
    {
        let code = s.get_char(i + k) as u32;
        let d: u32 = if 48 <= code && code <= 57 {
            code - 48
        } else if 97 <= code && code <= 102 {
            code - 87
        } else {
            code - 55
        };
        v = v * 16 + d;
        k += 1;
    }
    v
}

/// Parses a group at position `i`, as `spec_parse_group` describes.
fn parse_group_at(s: &str, i: usize) -> (r: Option<(u16, usize)>)
    requires
        i <= s@.len(),
    ensures
        match r {
            Some(t) => spec_parse_group(s@, i as int) == Some((t.0, t.1 as int)) && i < t.1
                <= s@.len(),
            None => spec_parse_group(s@, i as int) is None,
        },
{
    let j = hex_run_end(s, i);
    let n = j - i;
    if n < 1 || n > 4 {
        return None;
    }
    let v = hex_value_exec(s, i, n);
    Some((v as u16, j))
}

/// Appends the groups filling exactly `s[i .. end]`, as
/// `spec_parse_groups` reads them.
fn parse_groups_rec(s: &str, i: usize, end: usize, out: &mut Vec<u16>) -> (ok: bool)
    requires
        i <= end <= s@.len(),
    ensures
        match spec_parse_groups(s@, i as int, end as int) {
            Some(gs) => ok && final(out)@ == old(out)@ + gs,
            None => !ok,
        },
    decreases end - i,
{
    let (g, j) = match parse_group_at(s, i) {
        Some(t) => t,
        None => {
            return false;
        },
    };
    if j == end {
        out.push(g);
        proof {
            assert(final(out)@ =~= old(out)@ + seq![g]);
        }
        return true;
    }
    if j > end || s.get_char(j) != ':' {
        return false;
    }
    out.push(g);
    let ok = parse_groups_rec(s, j + 1, end, out);
    proof {
        if ok {
            let rest = spec_parse_groups(s@, j + 1 as int, end as int).unwrap();
            assert(final(out)@ =~= old(out)@ + (seq![g] + rest));
        }
    }
    ok
}

/// The first position in `[i, end)` holding the given character.
fn find_char_from(s: &str, i: usize, end: usize, c: char) -> (r: Option<usize>)
    requires
        i <= end <= s@.len(),
    ensures
        match r {
            Some(k) => spec_find_char(s@, i as int, end as int, c) == Some(k as int) && i <= k
                < end,
            None => spec_find_char(s@, i as int, end as int, c) is None,
        },
{
    let mut p = i;
    while p < end
        invariant
            i <= p <= end <= s@.len(),
            spec_find_char(s@, i as int, end as int, c) == spec_find_char(
                s@,
                p as int,
                end as int,
                c,
            ),
        decreases end - p,
    {
        if s.get_char(p) == c {
            return Some(p);
        }
        p += 1;
    }
    None
}

/// The first position in `[i, end - 1)` where two colons meet.
fn find_double_colon_from(s: &str, i: usize, end: usize) -> (r: Option<usize>)
    requires
        i <= end <= s@.len(),
    ensures
        match r {
            Some(k) => spec_find_double_colon(s@, i as int, end as int) == Some(k as int) && i
                <= k && k + 1 < end,
            None => spec_find_double_colon(s@, i as int, end as int) is None,
        },
{
    let mut p = i;
    while end - p > 1
        invariant
            i <= p,
            p <= end <= s@.len(),
            spec_find_double_colon(s@, i as int, end as int) == spec_find_double_colon(
                s@,
                p as int,
                end as int,
            ),
        decreases end - p,
    {
        if s.get_char(p) == ':' && s.get_char(p + 1) == ':' {
            return Some(p);
        }
        p += 1;
    }
    None
}

/// The group at position `k` of the address written as `front`, `::`,
/// `back`.
fn group_at_exec(front: &Vec<u16>, back: &Vec<u16>, k: usize) -> (r: u16)
    requires
        front@.len() + back@.len() <= 8,
        k < 8,
    ensures
        r == spec_group_at(front@, back@, k as int),
{
    if k < front.len() {
        front[k]
    } else if k + back.len() >= 8 {
        back[k + back.len() - 8]
    } else {
        0
    }
}

/// Parses `s[0 .. end]` as an IPv6 address, as `spec_parse_ipv6` describes.
fn parse_ipv6_range(s: &str, end: usize) -> (r: Option<Ipv6Addr>)
    requires
        end <= s@.len(),
    ensures
        r == spec_parse_ipv6(s@, end as int),
{
    let mut front: Vec<u16> = Vec::new();
    let mut back: Vec<u16> = Vec::new();
    match find_double_colon_from(s, 0, end) {
        None => {
            if !parse_groups_rec(s, 0, end, &mut front) {
                return None;
            }
            if front.len() != 8 {
                return None;
            }
        },
        Some(k) => {
            if find_double_colon_from(s, k + 1, end).is_some() {
                return None;
            }
            if k > 0 && !parse_groups_rec(s, 0, k, &mut front) {
                return None;
            }
            if k + 2 != end && !parse_groups_rec(s, k + 2, end, &mut back) {
                return None;
            }
            if front.len() > 7 {
                return None;
            }
            if back.len() > 7 - front.len() {
                return None;
            }
        },
    }
    Some(
        Ipv6Addr {
            g0: group_at_exec(&front, &back, 0),
            g1: group_at_exec(&front, &back, 1),
            g2: group_at_exec(&front, &back, 2),
            g3: group_at_exec(&front, &back, 3),
            g4: group_at_exec(&front, &back, 4),
            g5: group_at_exec(&front, &back, 5),
            g6: group_at_exec(&front, &back, 6),
            g7: group_at_exec(&front, &back, 7),
        },
    )
}

/// Parses a prefix length for an IPv6 network at position `i`.
fn parse_prefix128_at(s: &str, i: usize) -> (r: Option<(u8, usize)>)
    requires
        i <= s@.len(),
    ensures
        match r {
            Some(t) => spec_parse_prefix128(s@, i as int) == Some((t.0, t.1 as int)) && t.0
                <= 128,
            None => spec_parse_prefix128(s@, i as int) is None,
        },
{
    let j = digit_run_end(s, i);
    let n = j - i;
    if n < 1 || n > 3 {
        return None;
    }
    if n > 1 && s.get_char(i) == '0' {
        return None;
    }
    let v = digits_value_exec(s, i, n);
    if v > 128 {
        return None;
    }
    Some((v as u8, j))
}

/// Parses a whole string as an IPv6 CIDR prefix, `address/len`.
pub fn parse_ipv6_cidr(s: &str) -> (r: Option<(Ipv6Addr, u8)>)
    ensures
        r == spec_parse_cidr_v6(s@),
        r is Some ==> r.unwrap().1 <= 128,
{
    let n = s.unicode_len();
    let sl = match find_char_from(s, 0, n, '/') {
        Some(k) => k,
        None => {
            return None;
        },
    };
    let addr = match parse_ipv6_range(s, sl) {
        Some(a) => a,
        None => {
            return None;
        },
    };
    let (p, j) = match parse_prefix128_at(s, sl + 1) {
        Some(t) => t,
        None => {
            return None;
        },
    };
    if j == n {
        Some((addr, p))
    } else {
        None
    }
}

/// Parses a subnet string of either address family.
pub fn parse_subnet(s: &str) -> (r: Option<IpCidr>)
    ensures
        r == spec_parse_subnet(s@),
        forall|ip: Ipv4Addr, p: u8| r == Some(IpCidr::V4(ip, p)) ==> p <= 32,
        forall|a: Ipv6Addr, p: u8| r == Some(IpCidr::V6(a, p)) ==> p <= 128,
{
    match crate::ip::parse_ipv4_cidr(s) {
        Some((ip, p)) => Some(IpCidr::V4(ip, p)),
        None => match parse_ipv6_cidr(s) {
            Some((a, p)) => Some(IpCidr::V6(a, p)),
            None => None,
        },
    }
}

} // verus!
