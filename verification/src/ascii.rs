//! ASCII case folding and region-token validation.
//!
//! Country and region codes are compared case-insensitively throughout the
//! library: both sides are folded to lower case before any equality check.
//! Tokens that are not plain letter sequences (for example a code with
//! trailing whitespace) are rejected as invalid input rather than trimmed.

use vstd::prelude::*;

use crate::errors::ProbeError;

verus! {

/// ASCII lower-casing of one character: `'A'..'Z'` map to `'a'..'z'`,
/// every other character is unchanged.
pub open spec fn lower_char(c: char) -> char {
    if 65 <= c as int <= 90 {
        (((c as int) + 32) as u8) as char
    } else {
        c
    }
}

/// ASCII lower-casing of a whole character sequence.
pub open spec fn lower_seq(s: Seq<char>) -> Seq<char> {
    s.map_values(|c: char| lower_char(c))
}

/// The case-insensitive comparison used for region and country codes.
pub open spec fn region_matches(a: Seq<char>, b: Seq<char>) -> bool {
    lower_seq(a) == lower_seq(b)
}

/// A valid region token: non-empty and made of ASCII letters only.
pub open spec fn valid_region(s: Seq<char>) -> bool {
    s.len() > 0 && forall|i: int| 0 <= i < s.len() ==> is_ascii_letter(#[trigger] s[i])
}

pub open spec fn is_ascii_letter(c: char) -> bool {
    65 <= c as int <= 90 || 97 <= c as int <= 122
}

/// Relies on `String::push`: appends one character at the end of the string.
#[verifier::external_body]
pub(crate) fn push_char(s: &mut String, c: char)
    ensures
        final(s)@ == old(s)@.push(c),
{
    s.push(c);
}

/// Folds ASCII upper-case letters to lower case; all other characters,
/// including every non-ASCII character, are copied unchanged.
pub fn to_lowercase_ascii(s: &str) -> (r: String)
    ensures
        r@ == lower_seq(s@),
{
    let n = s.unicode_len();
    let mut out = String::new();
    let mut i: usize = 0;
    while i < n
        invariant
            n == s@.len(),
            i <= n,
            out@ == lower_seq(s@).take(i as int),
        decreases n - i,
    {
        let c = s.get_char(i);
        let code = c as u32;
        if 65 <= code && code <= 90 {
            push_char(&mut out, ((code + 32) as u8) as char);
        } else {
            push_char(&mut out, c);
        }
        proof {
            assert(out@ =~= lower_seq(s@).take(i + 1 as int));
        }
        i += 1;
    }
    proof {
        assert(lower_seq(s@).take(n as int) =~= lower_seq(s@));
    }
    out
}

/// Accepts exactly the tokens that may serve as a region code: non-empty
/// ASCII letter sequences.  Anything else, whitespace included, is
/// `InvalidInput`.
pub fn validate_region(s: &str) -> (r: Result<(), ProbeError>)
    ensures
        r is Ok <==> valid_region(s@),
        r is Err ==> r == Err::<(), ProbeError>(ProbeError::InvalidInput),
{
    let n = s.unicode_len();
    if n == 0 {
        return Err(ProbeError::InvalidInput);
    }
    let mut i: usize = 0;
    while i < n
        invariant
            n == s@.len(),
            i <= n,
            forall|j: int| 0 <= j < i ==> is_ascii_letter(#[trigger] s@[j]),
        decreases n - i,
    {
        let code = s.get_char(i) as u32;
        if !(65 <= code && code <= 90 || 97 <= code && code <= 122) {
            return Err(ProbeError::InvalidInput);
        }
        i += 1;
    }
    Ok(())
}

/// Character-wise string equality.
pub fn str_eq(a: &str, b: &str) -> (r: bool)
    ensures
        r == (a@ == b@),
{
    let n = a.unicode_len();
    if n != b.unicode_len() {
        return false;
    }
    let mut i: usize = 0;
    while i < n
        invariant
            n == a@.len(),
            n == b@.len(),
            i <= n,
            forall|j: int| 0 <= j < i ==> a@[j] == b@[j],
        decreases n - i,
    {
        if a.get_char(i) != b.get_char(i) {
            return false;
        }
        i += 1;
    }
    proof {
        assert(a@ =~= b@);
    }
    true
}

/// Case folding is idempotent: folding a folded sequence changes nothing.
pub proof fn lemma_lower_idempotent(s: Seq<char>)
    ensures
        lower_seq(lower_seq(s)) == lower_seq(s),
{
    assert forall|i: int| 0 <= i < s.len() implies lower_char(lower_char(#[trigger] s[i]))
        == lower_char(s[i]) by {
    }
    assert(lower_seq(lower_seq(s)) =~= lower_seq(s));
}

/// The region comparison is insensitive to the case of either side: folding
/// one or both inputs never changes its outcome.
pub proof fn lemma_region_match_case_insensitive(a: Seq<char>, b: Seq<char>)
    ensures
        region_matches(a, b) <==> region_matches(lower_seq(a), lower_seq(b)),
        region_matches(a, lower_seq(a)),
{
    lemma_lower_idempotent(a);
    lemma_lower_idempotent(b);
}

} // verus!
