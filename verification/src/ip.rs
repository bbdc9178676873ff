//! The library's model of an IPv4 address, its canonical dotted-quad text
//! form, and parsers for addresses and CIDR prefixes.
//!
//! Addresses appear in three places: in DNS answer records, in the `query`
//! field echoed by geolocation providers, and in the configured test subnets.
//! The printer and the parsers below are verified against one spec-level
//! grammar, so the three agree with each other.

use vstd::prelude::*;

use crate::ascii::push_char;

verus! {

/// An IPv4 address as four octets.
#[derive(Clone, Copy, Debug, PartialEq, Eq, Structural)]
pub struct Ipv4Addr {
    pub a: u8,
    pub b: u8,
    pub c: u8,
    pub d: u8,
}

impl Ipv4Addr {
    /// The address as one integer, high octet first.
    pub open spec fn as_int(self) -> int {
        self.a * 0x1000000 + self.b * 0x10000 + self.c * 0x100 + self.d
    }

    pub fn new(a: u8, b: u8, c: u8, d: u8) -> (r: Self)
        ensures
            r == (Ipv4Addr { a, b, c, d }),
    {
        Ipv4Addr { a, b, c, d }
    }

    /// The all-zero address `0.0.0.0`.
    pub fn unspecified() -> (r: Self)
        ensures
            r == (Ipv4Addr { a: 0u8, b: 0u8, c: 0u8, d: 0u8 }),
    {
        Ipv4Addr { a: 0, b: 0, c: 0, d: 0 }
    }
}

/// The character for one decimal digit value.
pub open spec fn digit_char(d: int) -> char {
    ((48 + d) as u8) as char
}

/// The canonical decimal form of `v`: no sign, no leading zeros.
pub open spec fn dec_chars(v: int) -> Seq<char>
    decreases v,
{
    if v < 10 {
        seq![digit_char(v)]
    } else {
        dec_chars(v / 10).push(digit_char(v % 10))
    }
}

/// The canonical dotted-quad form of an address.
pub open spec fn ipv4_chars(ip: Ipv4Addr) -> Seq<char> {
    dec_chars(ip.a as int) + seq!['.'] + dec_chars(ip.b as int) + seq!['.'] + dec_chars(
        ip.c as int,
    ) + seq!['.'] + dec_chars(ip.d as int)
}

/// The canonical form of a CIDR prefix, `address/len`.
pub open spec fn cidr_chars(ip: Ipv4Addr, prefix: u8) -> Seq<char> {
    ipv4_chars(ip) + seq!['/'] + dec_chars(prefix as int)
}

/// Appends the canonical decimal form of `v`.
fn push_decimal(out: &mut String, v: u8)
    ensures
        final(out)@ == old(out)@ + dec_chars(v as int),
{
    proof {
        if v >= 100 {
            assert(v as int / 10 / 10 == v as int / 100) by (nonlinear_arith)
                requires 100 <= v < 256;
            assert((v as int / 10) % 10 == v as int / 10 % 10);
        }
    }
    if v >= 100 {
        push_char(out, (48 + v / 100) as char);
        push_char(out, (48 + (v / 10) % 10) as char);
        push_char(out, (48 + v % 10) as char);
        proof {
            assert(dec_chars(v as int / 100) =~= seq![digit_char(v as int / 100)]);
            assert(dec_chars(v as int / 10) =~= dec_chars(v as int / 100).push(
                digit_char(v as int / 10 % 10),
            ));
            assert(dec_chars(v as int) =~= seq![
                digit_char(v as int / 100),
                digit_char(v as int / 10 % 10),
                digit_char(v as int % 10),
            ]);
            assert(final(out)@ =~= old(out)@ + dec_chars(v as int));
        }
    } else if v >= 10 {
        push_char(out, (48 + v / 10) as char);
        push_char(out, (48 + v % 10) as char);
        proof {
            assert(dec_chars(v as int / 10) =~= seq![digit_char(v as int / 10)]);
            assert(dec_chars(v as int) =~= seq![
                digit_char(v as int / 10),
                digit_char(v as int % 10),
            ]);
            assert(final(out)@ =~= old(out)@ + dec_chars(v as int));
        }
    } else {
        push_char(out, (48 + v) as char);
        proof {
            assert(dec_chars(v as int) =~= seq![digit_char(v as int)]);
            assert(final(out)@ =~= old(out)@ + dec_chars(v as int));
        }
    }
}

/// Prints an address in its canonical dotted-quad form.
pub fn ipv4_to_string(ip: &Ipv4Addr) -> (r: String)
    ensures
        r@ == ipv4_chars(*ip),
{
    let mut out = String::new();
    push_decimal(&mut out, ip.a);
    push_char(&mut out, '.');
    push_decimal(&mut out, ip.b);
    push_char(&mut out, '.');
    push_decimal(&mut out, ip.c);
    push_char(&mut out, '.');
    push_decimal(&mut out, ip.d);
    proof {
        assert(out@ =~= ipv4_chars(*ip));
    }
    out
}

/// A decimal digit.
pub open spec fn is_digit(c: char) -> bool {
    48 <= c as int <= 57
}

/// The value of a decimal digit.
pub open spec fn digit_val(c: char) -> int {
    c as int - 48
}

/// The length of the digit run starting at `i`.
pub open spec fn digit_run(s: Seq<char>, i: int) -> int
    decreases s.len() - i when i <= s.len()
{
    if 0 <= i < s.len() && is_digit(s[i]) {
        1 + digit_run(s, i + 1)
    } else {
        0
    }
}

/// The value of the digits `s[i .. i + n]`, read most significant first.
pub open spec fn digits_value(s: Seq<char>, i: int, n: int) -> int
    decreases n,
{
    if n <= 0 {
        0
    } else {
        digits_value(s, i, n - 1) * 10 + digit_val(s[i + n - 1])
    }
}

/// Every position inside a digit run holds a digit.
pub proof fn lemma_digit_run_digits(s: Seq<char>, i: int)
    requires
        0 <= i <= s.len(),
    ensures
        i + digit_run(s, i) <= s.len(),
        forall|k: int| i <= k < i + digit_run(s, i) ==> is_digit(#[trigger] s[k]),
    decreases s.len() - i,
{
    if i < s.len() && is_digit(s[i]) {
        lemma_digit_run_digits(s, i + 1);
    }
}

/// An octet in canonical decimal at position `i`: one to three digits, no
/// leading zero, value at most 255.  Yields the value and the position after.
pub open spec fn spec_parse_octet(s: Seq<char>, i: int) -> Option<(u8, int)> {
    let n = digit_run(s, i);
    if 1 <= n <= 3 && digits_value(s, i, n) <= 255 && (n > 1 ==> s[i] != '0') {
        Some((digits_value(s, i, n) as u8, i + n))
    } else {
        None
    }
}

/// A prefix length in canonical decimal at position `i`: at most two digits,
/// no leading zero, value at most 32.
pub open spec fn spec_parse_prefix_len(s: Seq<char>, i: int) -> Option<(u8, int)> {
    let n = digit_run(s, i);
    if 1 <= n <= 2 && digits_value(s, i, n) <= 32 && (n > 1 ==> s[i] != '0') {
        Some((digits_value(s, i, n) as u8, i + n))
    } else {
        None
    }
}

/// One expected character at position `i`.
pub open spec fn spec_expect_char(s: Seq<char>, i: int, c: char) -> Option<int> {
    if 0 <= i < s.len() && s[i] == c {
        Some(i + 1)
    } else {
        None
    }
}

/// A dotted quad starting at position `i`.
pub open spec fn spec_parse_ipv4_at(s: Seq<char>, i: int) -> Option<(Ipv4Addr, int)> {
    match spec_parse_octet(s, i) {
        None => None,
        Some((a, i1)) => match spec_expect_char(s, i1, '.') {
            None => None,
            Some(i2) => match spec_parse_octet(s, i2) {
                None => None,
                Some((b, i3)) => match spec_expect_char(s, i3, '.') {
                    None => None,
                    Some(i4) => match spec_parse_octet(s, i4) {
                        None => None,
                        Some((c, i5)) => match spec_expect_char(s, i5, '.') {
                            None => None,
                            Some(i6) => match spec_parse_octet(s, i6) {
                                None => None,
                                Some((d, i7)) => Some((Ipv4Addr { a, b, c, d }, i7)),
                            },
                        },
                    },
                },
            },
        },
    }
}

/// A whole string holding exactly one dotted quad.
pub open spec fn spec_parse_ipv4(s: Seq<char>) -> Option<Ipv4Addr> {
    match spec_parse_ipv4_at(s, 0) {
        None => None,
        Some((ip, i)) => if i == s.len() {
            Some(ip)
        } else {
            None
        },
    }
}

/// A whole string holding exactly one CIDR prefix, `address/len`.
pub open spec fn spec_parse_cidr(s: Seq<char>) -> Option<(Ipv4Addr, u8)> {
    match spec_parse_ipv4_at(s, 0) {
        None => None,
        Some((ip, i)) => match spec_expect_char(s, i, '/') {
            None => None,
            Some(i2) => match spec_parse_prefix_len(s, i2) {
                None => None,
                Some((p, i3)) => if i3 == s.len() {
                    Some((ip, p))
                } else {
                    None
                },
            },
        },
    }
}

/// The position right after the digit run starting at `i`.
pub(crate) fn digit_run_end(s: &str, i: usize) -> (j: usize)
    requires
        i <= s@.len(),
    ensures
        i <= j <= s@.len(),
        digit_run(s@, i as int) == j - i,
{
    let n = s.unicode_len();
    let mut j: usize = i;
    while j < n
        invariant
            i <= j <= n,
            n == s@.len(),
            digit_run(s@, i as int) == j - i + digit_run(s@, j as int),
        decreases n - j,
    {
        let code = s.get_char(j) as u32;
        if !(48 <= code && code <= 57) {
            return j;
        }
        j += 1;
    }
    j
}

/// The value of the digits `s[i .. i + n]`, which the caller has already
/// found to be digits.
pub(crate) fn digits_value_exec(s: &str, i: usize, n: usize) -> (v: u32)
    requires
        i + n <= s@.len(),
        i + n <= usize::MAX,
        n <= 3,
        n <= digit_run(s@, i as int),
    ensures
        v == digits_value(s@, i as int, n as int),
        v < 1000,
{
    proof {
        lemma_digit_run_digits(s@, i as int);
    }
    let mut v: u32 = 0;
    let mut k: usize = 0;
    while k < n
        invariant
            k <= n <= 3,
            i + n <= s@.len(),
            i + n <= usize::MAX,
            forall|m: int| i <= m < i + n ==> is_digit(#[trigger] s@[m]),
            v == digits_value(s@, i as int, k as int),
            v < 1000,
            k < 3 ==> v < 100,
            k < 2 ==> v < 10,
            k < 1 ==> v == 0,
        decreases n - k,
    {
        let code = s.get_char(i + k) as u32;
        v = v * 10 + (code - 48);
        k += 1;
    }
    v
}

/// Parses an octet at position `i`, as `spec_parse_octet` describes.
fn parse_octet_at(s: &str, i: usize) -> (r: Option<(u8, usize)>)
    requires
        i <= s@.len(),
    ensures
        match r {
            Some(t) => spec_parse_octet(s@, i as int) == Some((t.0, t.1 as int)),
            None => spec_parse_octet(s@, i as int) is None,
        },
{
    let j = digit_run_end(s, i);
    let n = j - i;
    if n < 1 || n > 3 {
        return None;
    }
    if n > 1 && s.get_char(i) == '0' {
        return None;
    }
    let v = digits_value_exec(s, i, n);
    if v > 255 {
        return None;
    }
    Some((v as u8, j))
}

/// Parses a prefix length at position `i`, as `spec_parse_prefix_len`
/// describes.
fn parse_prefix_len_at(s: &str, i: usize) -> (r: Option<(u8, usize)>)
    requires
        i <= s@.len(),
    ensures
        match r {
            Some(t) => spec_parse_prefix_len(s@, i as int) == Some((t.0, t.1 as int)) && t.0
                <= 32,
            None => spec_parse_prefix_len(s@, i as int) is None,
        },
{
    let j = digit_run_end(s, i);
    let n = j - i;
    if n < 1 || n > 2 {
        return None;
    }
    if n > 1 && s.get_char(i) == '0' {
        return None;
    }
    let v = digits_value_exec(s, i, n);
    if v > 32 {
        return None;
    }
    Some((v as u8, j))
}

/// Parses a dotted quad at position `i`, as `spec_parse_ipv4_at` describes.
fn parse_ipv4_at(s: &str, i: usize) -> (r: Option<(Ipv4Addr, usize)>)
    requires
        i <= s@.len(),
    ensures
        match r {
            Some(t) => spec_parse_ipv4_at(s@, i as int) == Some((t.0, t.1 as int)),
            None => spec_parse_ipv4_at(s@, i as int) is None,
        },
{
    let n = s.unicode_len();
    let (a, i1) = match parse_octet_at(s, i) {
        Some(t) => t,
        None => {
            return None;
        },
    };
    if i1 >= n || s.get_char(i1) != '.' {
        return None;
    }
    let (b, i2) = match parse_octet_at(s, i1 + 1) {
        Some(t) => t,
        None => {
            return None;
        },
    };
    if i2 >= n || s.get_char(i2) != '.' {
        return None;
    }
    let (c, i3) = match parse_octet_at(s, i2 + 1) {
        Some(t) => t,
        None => {
            return None;
        },
    };
    if i3 >= n || s.get_char(i3) != '.' {
        return None;
    }
    let (d, i4) = match parse_octet_at(s, i3 + 1) {
        Some(t) => t,
        None => {
            return None;
        },
    };
    Some((Ipv4Addr { a, b, c, d }, i4))
}

/// Parses a whole string as a dotted-quad IPv4 address.
pub fn parse_ipv4(s: &str) -> (r: Option<Ipv4Addr>)
    ensures
        r == spec_parse_ipv4(s@),
{
    let n = s.unicode_len();
    match parse_ipv4_at(s, 0) {
        Some((ip, i)) => if i == n {
            Some(ip)
        } else {
            None
        },
        None => None,
    }
}

/// `digits_value` reads only the window `[i, i + n)`.
proof fn lemma_digits_value_frame(s1: Seq<char>, s2: Seq<char>, i1: int, i2: int, n: int)
    requires
        forall|k: int| 0 <= k < n ==> #[trigger] s1[i1 + k] == s2[i2 + k],
    ensures
        digits_value(s1, i1, n) == digits_value(s2, i2, n),
    decreases n,
{
    if n > 0 {
        lemma_digits_value_frame(s1, s2, i1, i2, n - 1);
    }
}

/// A window of `n` digits with no digit after it is exactly the digit run.
proof fn lemma_digit_run_exact(s: Seq<char>, i: int, n: int)
    requires
        0 <= i,
        0 <= n,
        i + n <= s.len(),
        forall|k: int| 0 <= k < n ==> is_digit(#[trigger] s[i + k]),
        i + n == s.len() || !is_digit(s[i + n]),
    ensures
        digit_run(s, i) == n,
    decreases n,
{
    if n > 0 {
        assert(is_digit(s[i + 0]));
        assert forall|k: int| 0 <= k < n - 1 implies is_digit(#[trigger] s[i + 1 + k]) by {
            assert(is_digit(s[i + (k + 1)]));
        }
        lemma_digit_run_exact(s, i + 1, n - 1);
    }
}

/// The canonical decimal form of `0 <= v < 1000` is made of digits, has no
/// leading zero, has the expected length, and reads back as `v`.
proof fn lemma_dec_chars_props(v: int)
    requires
        0 <= v < 1000,
    ensures
        dec_chars(v).len() == (if v < 10 { 1int } else if v < 100 { 2int } else { 3int }),
        forall|k: int| 0 <= k < dec_chars(v).len() ==> is_digit(#[trigger] dec_chars(v)[k]),
        v >= 10 ==> dec_chars(v)[0] != '0',
        digits_value(dec_chars(v), 0, dec_chars(v).len() as int) == v,
    decreases v,
{
    if v < 10 {
        assert(dec_chars(v) =~= seq![digit_char(v)]);
        assert(digits_value(dec_chars(v), 0, 0) == 0);
        assert(digits_value(dec_chars(v), 0, 1) == digit_val(digit_char(v)));
    } else {
        let pre = dec_chars(v / 10);
        let s = dec_chars(v);
        let n = s.len() as int;
        lemma_dec_chars_props(v / 10);
        assert(s =~= pre.push(digit_char(v % 10)));
        assert(forall|k: int| 0 <= k < n - 1 ==> s[k] == pre[k]);
        lemma_digits_value_frame(s, pre, 0, 0, n - 1);
        assert(digits_value(s, 0, n) == digits_value(s, 0, n - 1) * 10 + digit_val(s[n - 1]));
        assert(digit_val(digit_char(v % 10)) == v % 10);
    }
}

/// At a position where the text holds the canonical decimal form of an
/// octet, followed by no further digit, the octet parser reads that octet.
proof fn lemma_parse_octet_canonical(s: Seq<char>, i: int, v: int)
    requires
        0 <= v <= 255,
        0 <= i,
        i + dec_chars(v).len() <= s.len(),
        forall|k: int| 0 <= k < dec_chars(v).len() ==> s[i + k] == #[trigger] dec_chars(v)[k],
        i + dec_chars(v).len() == s.len() || !is_digit(s[i + dec_chars(v).len()]),
    ensures
        spec_parse_octet(s, i) == Some((v as u8, i + dec_chars(v).len())),
{
    let n = dec_chars(v).len() as int;
    lemma_dec_chars_props(v);
    assert forall|k: int| 0 <= k < n implies is_digit(#[trigger] s[i + k]) by {
        assert(s[i + k] == dec_chars(v)[k]);
    }
    lemma_digit_run_exact(s, i, n);
    lemma_digits_value_frame(s, dec_chars(v), i, 0, n);
}

/// The same statement for a prefix length.
proof fn lemma_parse_prefix_len_canonical(s: Seq<char>, i: int, v: int)
    requires
        0 <= v <= 32,
        0 <= i,
        i + dec_chars(v).len() <= s.len(),
        forall|k: int| 0 <= k < dec_chars(v).len() ==> s[i + k] == #[trigger] dec_chars(v)[k],
        i + dec_chars(v).len() == s.len() || !is_digit(s[i + dec_chars(v).len()]),
    ensures
        spec_parse_prefix_len(s, i) == Some((v as u8, i + dec_chars(v).len())),
{
    let n = dec_chars(v).len() as int;
    lemma_dec_chars_props(v);
    assert forall|k: int| 0 <= k < n implies is_digit(#[trigger] s[i + k]) by {
        assert(s[i + k] == dec_chars(v)[k]);
    }
    lemma_digit_run_exact(s, i, n);
    lemma_digits_value_frame(s, dec_chars(v), i, 0, n);
}

/// At a position where the text holds the canonical dotted-quad form of an
/// address, followed by no further digit, the address parser reads that
/// address.
proof fn lemma_parse_ipv4_at_canonical(s: Seq<char>, i: int, ip: Ipv4Addr)
    requires
        0 <= i,
        i + ipv4_chars(ip).len() <= s.len(),
        forall|k: int| 0 <= k < ipv4_chars(ip).len() ==> s[i + k] == #[trigger] ipv4_chars(ip)[k],
        i + ipv4_chars(ip).len() == s.len() || !is_digit(s[i + ipv4_chars(ip).len()]),
    ensures
        spec_parse_ipv4_at(s, i) == Some((ip, i + ipv4_chars(ip).len())),
{
    let sa = dec_chars(ip.a as int);
    let sb = dec_chars(ip.b as int);
    let sc = dec_chars(ip.c as int);
    let sd = dec_chars(ip.d as int);
    let la = sa.len() as int;
    let lb = sb.len() as int;
    let lc = sc.len() as int;
    let ld = sd.len() as int;
    let full = ipv4_chars(ip);
    assert(full =~= sa + seq!['.'] + sb + seq!['.'] + sc + seq!['.'] + sd);
    let i1 = i + la;
    let i2 = i1 + 1;
    let i3 = i2 + lb;
    let i4 = i3 + 1;
    let i5 = i4 + lc;
    let i6 = i5 + 1;
    let i7 = i6 + ld;
    assert(forall|k: int| 0 <= k < la ==> full[k] == #[trigger] sa[k]);
    assert(full[la] == '.');
    assert(forall|k: int| 0 <= k < lb ==> full[la + 1 + k] == #[trigger] sb[k]);
    assert(full[la + 1 + lb] == '.');
    assert(forall|k: int| 0 <= k < lc ==> full[la + 1 + lb + 1 + k] == #[trigger] sc[k]);
    assert(full[la + 1 + lb + 1 + lc] == '.');
    assert(forall|k: int| 0 <= k < ld ==> full[la + 1 + lb + 1 + lc + 1 + k] == #[trigger] sd[k]);
    lemma_parse_octet_canonical(s, i, ip.a as int);
    assert(spec_expect_char(s, i1, '.') == Some(i2));
    lemma_parse_octet_canonical(s, i2, ip.b as int);
    assert(spec_expect_char(s, i3, '.') == Some(i4));
    lemma_parse_octet_canonical(s, i4, ip.c as int);
    assert(spec_expect_char(s, i5, '.') == Some(i6));
    lemma_parse_octet_canonical(s, i6, ip.d as int);
    assert(spec_parse_ipv4_at(s, i) == Some((Ipv4Addr { a: ip.a, b: ip.b, c: ip.c, d: ip.d }, i7)));
    assert(Ipv4Addr { a: ip.a, b: ip.b, c: ip.c, d: ip.d } == ip);
}

/// A digit character survives the round trip through its value.
proof fn lemma_digit_char_val(c: char)
    requires
        is_digit(c),
    ensures
        digit_char(digit_val(c)) == c,
{
}

/// A canonical digit window (no leading zero) is the decimal form of its
/// own value.
proof fn lemma_digits_canonical(s: Seq<char>, i: int, n: int)
    requires
        1 <= n,
        0 <= i,
        i + n <= s.len(),
        forall|k: int| 0 <= k < n ==> is_digit(#[trigger] s[i + k]),
        n > 1 ==> s[i] != '0',
    ensures
        dec_chars(digits_value(s, i, n)) =~= s.subrange(i, i + n),
        n > 1 ==> digits_value(s, i, n) >= 10,
        digits_value(s, i, n) >= 0,
    decreases n,
{
    if n == 1 {
        assert(is_digit(s[i + 0]));
        assert(digits_value(s, i, 0) == 0);
        assert(digits_value(s, i, 1) == digit_val(s[i]));
        lemma_digit_char_val(s[i]);
        assert(dec_chars(digit_val(s[i])) =~= seq![digit_char(digit_val(s[i]))]);
    } else {
        lemma_digits_canonical(s, i, n - 1);
        let a = digits_value(s, i, n - 1);
        let d = digit_val(s[i + n - 1]);
        let v = digits_value(s, i, n);
        assert(is_digit(s[i + (n - 1)]));
        assert(0 <= d < 10);
        // the leading digit is not zero, so the prefix value is at least one
        if n - 1 == 1 {
            assert(digits_value(s, i, 0) == 0);
            assert(a == digit_val(s[i + 0]));
            assert(s[i] != '0');
            assert(a >= 1);
        } else {
            assert(a >= 10);
        }
        assert(v == a * 10 + d);
        assert(v / 10 == a && v % 10 == d) by (nonlinear_arith)
            requires v == a * 10 + d, 0 <= d < 10, a >= 0;
        assert(v >= 10) by (nonlinear_arith)
            requires v == a * 10 + d, a >= 1, d >= 0;
        lemma_digit_char_val(s[i + n - 1]);
        assert(dec_chars(v) =~= dec_chars(a).push(digit_char(d)));
        assert(dec_chars(v) =~= s.subrange(i, i + n));
    }
}

/// What the octet parser accepts at `i` is the canonical decimal form of
/// the value it returns.
proof fn lemma_parse_octet_sound(s: Seq<char>, i: int)
    requires
        0 <= i <= s.len(),
        spec_parse_octet(s, i) is Some,
    ensures
        ({
            let (v, j) = spec_parse_octet(s, i).unwrap();
            &&& i < j <= s.len()
            &&& s.subrange(i, j) == dec_chars(v as int)
            &&& j - i == dec_chars(v as int).len()
        }),
{
    let n = digit_run(s, i);
    lemma_digit_run_digits(s, i);
    lemma_digits_canonical(s, i, n);
}

/// The same statement for a prefix length.
proof fn lemma_parse_prefix_len_sound(s: Seq<char>, i: int)
    requires
        0 <= i <= s.len(),
        spec_parse_prefix_len(s, i) is Some,
    ensures
        ({
            let (v, j) = spec_parse_prefix_len(s, i).unwrap();
            &&& i < j <= s.len()
            &&& s.subrange(i, j) == dec_chars(v as int)
            &&& j - i == dec_chars(v as int).len()
        }),
{
    let n = digit_run(s, i);
    lemma_digit_run_digits(s, i);
    lemma_digits_canonical(s, i, n);
}

/// What the address parser accepts at `i` is the canonical dotted-quad form
/// of the address it returns.
proof fn lemma_parse_ipv4_at_sound(s: Seq<char>, i: int)
    requires
        0 <= i <= s.len(),
        spec_parse_ipv4_at(s, i) is Some,
    ensures
        ({
            let (ip, j) = spec_parse_ipv4_at(s, i).unwrap();
            &&& i < j <= s.len()
            &&& s.subrange(i, j) == ipv4_chars(ip)
        }),
{
    let (a, i1) = spec_parse_octet(s, i).unwrap();
    lemma_parse_octet_sound(s, i);
    let i2 = spec_expect_char(s, i1, '.').unwrap();
    let (b, i3) = spec_parse_octet(s, i2).unwrap();
    lemma_parse_octet_sound(s, i2);
    let i4 = spec_expect_char(s, i3, '.').unwrap();
    let (c, i5) = spec_parse_octet(s, i4).unwrap();
    lemma_parse_octet_sound(s, i4);
    let i6 = spec_expect_char(s, i5, '.').unwrap();
    let (d, i7) = spec_parse_octet(s, i6).unwrap();
    lemma_parse_octet_sound(s, i6);
    let ip = Ipv4Addr { a, b, c, d };
    assert(s.subrange(i, i7) =~= s.subrange(i, i1) + seq![s[i1]] + s.subrange(i2, i3) + seq![
        s[i3],
    ] + s.subrange(i4, i5) + seq![s[i5]] + s.subrange(i6, i7));
    assert(s.subrange(i, i7) =~= ipv4_chars(ip));
}

/// A string the address parser accepts is exactly the canonical printed
/// form of the parsed address.
pub proof fn lemma_parse_ipv4_sound(s: Seq<char>)
    requires
        spec_parse_ipv4(s) is Some,
    ensures
        s == ipv4_chars(spec_parse_ipv4(s).unwrap()),
{
    lemma_parse_ipv4_at_sound(s, 0);
    let (ip, j) = spec_parse_ipv4_at(s, 0).unwrap();
    assert(s.subrange(0, j) =~= s);
}

/// A string the prefix parser accepts is exactly the canonical printed form
/// of the parsed prefix.
pub proof fn lemma_parse_cidr_sound(s: Seq<char>)
    requires
        spec_parse_cidr(s) is Some,
    ensures
        s == cidr_chars(spec_parse_cidr(s).unwrap().0, spec_parse_cidr(s).unwrap().1),
{
    lemma_parse_ipv4_at_sound(s, 0);
    let (ip, j) = spec_parse_ipv4_at(s, 0).unwrap();
    let j2 = spec_expect_char(s, j, '/').unwrap();
    lemma_parse_prefix_len_sound(s, j2);
    let (p, j3) = spec_parse_prefix_len(s, j2).unwrap();
    assert(s =~= s.subrange(0, j) + seq![s[j]] + s.subrange(j2, j3));
    assert(s =~= cidr_chars(ip, p));
}

/// Two different strings never parse to the same address: each address has
/// one accepted spelling.
pub proof fn lemma_parse_ipv4_injective(s1: Seq<char>, s2: Seq<char>)
    requires
        spec_parse_ipv4(s1) is Some,
        spec_parse_ipv4(s1) == spec_parse_ipv4(s2),
    ensures
        s1 == s2,
{
    lemma_parse_ipv4_sound(s1);
    lemma_parse_ipv4_sound(s2);
}

/// Printing an address and parsing the result gives the address back.
pub proof fn lemma_ipv4_round_trip(ip: Ipv4Addr)
    ensures
        spec_parse_ipv4(ipv4_chars(ip)) == Some(ip),
{
    lemma_parse_ipv4_at_canonical(ipv4_chars(ip), 0, ip);
}

/// Printing a CIDR prefix and parsing the result gives it back.
pub proof fn lemma_cidr_round_trip(ip: Ipv4Addr, prefix: u8)
    requires
        prefix <= 32,
    ensures
        spec_parse_cidr(cidr_chars(ip, prefix)) == Some((ip, prefix)),
{
    let s = cidr_chars(ip, prefix);
    let quad = ipv4_chars(ip);
    let lq = quad.len() as int;
    let sp = dec_chars(prefix as int);
    assert(s =~= quad + seq!['/'] + sp);
    assert(forall|k: int| 0 <= k < lq ==> s[k] == #[trigger] quad[k]);
    assert(s[lq] == '/');
    assert(!is_digit('/'));
    lemma_parse_ipv4_at_canonical(s, 0, ip);
    assert(spec_expect_char(s, lq, '/') == Some(lq + 1));
    assert(forall|k: int| 0 <= k < sp.len() ==> s[lq + 1 + k] == #[trigger] sp[k]);
    lemma_parse_prefix_len_canonical(s, lq + 1, prefix as int);
}

/// Parses a whole string as a CIDR prefix, `address/len`.
pub fn parse_ipv4_cidr(s: &str) -> (r: Option<(Ipv4Addr, u8)>)
    ensures
        r == spec_parse_cidr(s@),
        r is Some ==> r.unwrap().1 <= 32,
{
    let n = s.unicode_len();
    let (ip, i) = match parse_ipv4_at(s, 0) {
        Some(t) => t,
        None => {
            return None;
        },
    };
    if i >= n || s.get_char(i) != '/' {
        return None;
    }
    let (p, j) = match parse_prefix_len_at(s, i + 1) {
        Some(t) => t,
        None => {
            return None;
        },
    };
    if j == n {
        Some((ip, p))
    } else {
        None
    }
}

} // verus!
