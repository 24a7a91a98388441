//! Text encodings of wire values: canonical padded base64 and canonical
//! decimal identifiers.
use vstd::prelude::*;

use base64::Engine;

verus! {

/// The character of a 6-bit value in the standard base64 alphabet.
pub open spec fn base64_char(n: int) -> u8 {
    if n < 26 {
        (65 + n) as u8
    } else if n < 52 {
        (97 + n - 26) as u8
    } else if n < 62 {
        (48 + n - 52) as u8
    } else if n == 62 {
        43u8
    } else {
        47u8
    }
}

/// The standard padded base64 text of `bytes`, as ASCII bytes: each group
/// of three bytes becomes four characters of six bits each; a final group
/// of one or two bytes is zero-filled and padded with `=`.
pub open spec fn base64_text(bytes: Seq<u8>) -> Seq<u8>
    decreases bytes.len(),
{
    if bytes.len() == 0 {
        Seq::empty()
    } else if bytes.len() == 1 {
        let a = bytes[0] as int;
        seq![base64_char(a / 4), base64_char((a % 4) * 16), 61u8, 61u8]
    } else if bytes.len() == 2 {
        let a = bytes[0] as int;
        let b = bytes[1] as int;
        seq![base64_char(a / 4), base64_char((a % 4) * 16 + b / 16), base64_char((b % 16) * 4), 61u8]
    } else {
        let a = bytes[0] as int;
        let b = bytes[1] as int;
        let c = bytes[2] as int;
        seq![
            base64_char(a / 4),
            base64_char((a % 4) * 16 + b / 16),
            base64_char((b % 16) * 4 + c / 64),
            base64_char(c % 64),
        ] + base64_text(bytes.subrange(3, bytes.len() as int))
    }
}

/// What standard padded base64 decoding yields for `text`, if it accepts it.
pub uninterp spec fn base64_bytes(text: Seq<u8>) -> Option<Seq<u8>>;

/// Calls `base64::engine::general_purpose::STANDARD.encode`, which panics
/// only when the encoded length overflows `usize`. The result is
/// `base64_text`, the standard padded encoding; with padding on, its
/// length is `encoded_len`'s four bytes per started group of three, and
/// the same engine's canonical decoding gives the bytes back.
#[verifier::external_body]
pub(crate) fn base64_encode(bytes: &[u8]) -> (r: Vec<u8>)
    requires
        bytes@.len() <= usize::MAX / 4 * 3,
    ensures
        r@ == base64_text(bytes@),
        r@.len() == padded_len(bytes@.len()),
        base64_bytes(r@) == Some(bytes@),
{
    base64::engine::general_purpose::STANDARD.encode(bytes).into_bytes()
}

/// Calls `base64::engine::general_purpose::STANDARD.decode`; its outcome is
/// named by `base64_bytes`, with `None` for any decode error.
#[verifier::external_body]
pub(crate) fn base64_decode(text: &[u8]) -> (r: Option<Vec<u8>>)
    ensures
        match r {
            Some(v) => base64_bytes(text@) == Some(v@),
            None => base64_bytes(text@) is None,
        },
{
    base64::engine::general_purpose::STANDARD.decode(text).ok()
}

/// Length of the padded base64 text of `n` bytes.
pub open spec fn padded_len(n: nat) -> nat {
    ((n + 2) / 3 * 4) as nat
}

/// The `n` bytes that `text` canonically encodes: the text has the padded
/// length of `n` bytes, decodes, re-encodes to itself and decodes to
/// exactly `n` bytes.
pub open spec fn canonical_base64(text: Seq<u8>, n: nat) -> Option<Seq<u8>> {
    if text.len() != padded_len(n) {
        None
    } else {
        match base64_bytes(text) {
            None => None,
            Some(bytes) => if base64_text(bytes) != text || bytes.len() != n {
                None
            } else {
                Some(bytes)
            },
        }
    }
}

/// Byte-wise equality of two slices.
pub fn same_slice(a: &[u8], b: &[u8]) -> (r: bool)
    ensures
        r == (a@ == b@),
{
    if a.len() != b.len() {
        return false;
    }
    let mut i: usize = 0;
    while i < a.len()
        invariant
            i <= a@.len(),
            a@.len() == b@.len(),
            forall|j: int| 0 <= j < i ==> a@[j] == b@[j],
        decreases a@.len() - i,
    {
        if a[i] != b[i] {
            return false;
        }
        i += 1;
    }
    proof {
        assert(a@ =~= b@);
    }
    true
}

proof fn lemma_padded_len_overflows(n: nat)
    requires
        n > usize::MAX / 4 * 3,
    ensures
        padded_len(n) > usize::MAX,
{
    let m = usize::MAX as int;
    assert((n + 2) / 3 * 4 > m) by (nonlinear_arith)
        requires
            n > m / 4 * 3,
            m > 0,
    ;
}

/// Decodes `text` if it is the canonical padded base64 encoding of exactly
/// `n` bytes.
pub fn decode_canonical(text: &[u8], n: usize) -> (r: Option<Vec<u8>>)
    ensures
        match r {
            Some(v) => canonical_base64(text@, n as nat) == Some(v@),
            None => canonical_base64(text@, n as nat) is None,
        },
{
    let length = text.len();
    if n > usize::MAX / 4 * 3 {
        proof {
            lemma_padded_len_overflows(n as nat);
        }
        return None;
    }
    assert((n + 2) / 3 * 4 <= usize::MAX) by (nonlinear_arith)
        requires
            n <= usize::MAX / 4 * 3,
    ;
    let expected: usize = (n + 2) / 3 * 4;
    if length != expected {
        return None;
    }
    let bytes = match base64_decode(text) {
        Some(bytes) => bytes,
        None => return None,
    };
    if bytes.len() != n {
        return None;
    }
    let again = base64_encode(bytes.as_slice());
    if !same_slice(again.as_slice(), text) {
        return None;
    }
    Some(bytes)
}

/// Whether `b` is an ASCII decimal digit.
pub open spec fn is_digit(b: u8) -> bool {
    48 <= b <= 57
}

/// The value of a string of decimal digits.
pub open spec fn decimal(s: Seq<u8>) -> nat
    decreases s.len(),
{
    if s.len() == 0 {
        0
    } else {
        decimal(s.drop_last()) * 10 + (s.last() - 48) as nat
    }
}

/// A canonical decimal: digits only, at least one, no leading zero.
pub open spec fn canonical_decimal(s: Seq<u8>) -> bool {
    &&& s.len() > 0
    &&& s[0] != 48
    &&& forall|i: int| 0 <= i < s.len() ==> is_digit(#[trigger] s[i])
}

/// A prefix of a digit string is worth no more than the whole string.
pub proof fn lemma_decimal_prefix(s: Seq<u8>, j: int)
    requires
        0 <= j <= s.len(),
        forall|i: int| 0 <= i < s.len() ==> is_digit(#[trigger] s[i]),
    ensures
        decimal(s.subrange(0, j)) <= decimal(s),
    decreases s.len(),
{
    if j < s.len() {
        let t = s.drop_last();
        assert(t.subrange(0, j) =~= s.subrange(0, j));
        assert forall|i: int| 0 <= i < t.len() implies is_digit(#[trigger] t[i]) by {
            assert(t[i] == s[i]);
        }
        lemma_decimal_prefix(t, j);
    } else {
        assert(s.subrange(0, j) =~= s);
    }
}

/// Whether `s` is one or more ASCII digits.
pub open spec fn all_digits(s: Seq<u8>) -> bool {
    s.len() > 0 && forall|i: int| 0 <= i < s.len() ==> is_digit(#[trigger] s[i])
}

/// Parses one or more decimal digits (leading zeros allowed) worth no more
/// than `limit`.
pub fn parse_digits(text: &[u8], limit: u64) -> (r: Option<u64>)
    ensures
        match r {
            Some(v) => all_digits(text@) && decimal(text@) <= limit && v == decimal(text@),
            None => !all_digits(text@) || decimal(text@) > limit,
        },
{
    if text.len() == 0 {
        return None;
    }
    let mut value: u64 = 0;
    let mut i: usize = 0;
    while i < text.len()
        invariant
            0 <= i <= text@.len(),
            text@.len() > 0,
            value == decimal(text@.subrange(0, i as int)),
            value <= limit,
            forall|k: int| 0 <= k < i ==> is_digit(#[trigger] text@[k]),
        decreases text@.len() - i,
    {
        let b = text[i];
        proof {
            assert(text@.subrange(0, i + 1).drop_last() =~= text@.subrange(0, i as int));
        }
        if b < 48u8 || b > 57u8 {
            return None;
        }
        let digit: u64 = (b - 48u8) as u64;
        if digit > limit || value > (limit - digit) / 10 {
            proof {
                if digit <= limit {
                    assert(value * 10 + digit > limit) by (nonlinear_arith)
                        requires
                            value > (limit - digit) / 10,
                            digit <= limit,
                    ;
                }
                if all_digits(text@) {
                    lemma_decimal_prefix(text@, i + 1);
                }
            }
            return None;
        }
        assert(value * 10 + digit <= limit) by (nonlinear_arith)
            requires
                value <= (limit - digit) / 10,
                digit <= 9,
        ;
        value = value * 10 + digit;
        i += 1;
    }
    proof {
        assert(text@.subrange(0, text@.len() as int) =~= text@);
    }
    Some(value)
}

/// Parses a canonical decimal no larger than `limit`.
pub fn parse_decimal(text: &[u8], limit: u64) -> (r: Option<u64>)
    ensures
        match r {
            Some(v) => canonical_decimal(text@) && decimal(text@) <= limit && v == decimal(text@),
            None => !canonical_decimal(text@) || decimal(text@) > limit,
        },
{
    if text.len() == 0 || text[0] == 48u8 {
        return None;
    }
    parse_digits(text, limit)
}

/// The SHA-256 digest of `data`.
pub uninterp spec fn sha256_digest(data: Seq<u8>) -> Seq<u8>;

/// Calls `sha2::Sha256::digest`; the 32-byte result is named by
/// `sha256_digest`.
#[verifier::external_body]
pub(crate) fn sha256(data: &[u8]) -> (r: [u8; 32])
    ensures
        r@ == sha256_digest(data@),
{
    <sha2::Sha256 as sha2::Digest>::digest(data).into()
}

/// The decimal text of `value`.
pub open spec fn decimal_chars(value: nat) -> Seq<char>
    decreases value,
{
    let digit = (48 + value % 10) as char;
    if value < 10 {
        seq![digit]
    } else {
        decimal_chars(value / 10) + seq![digit]
    }
}

/// The decimal text of `value`: its leading digits, then its last.
pub(crate) fn decimal_text(value: u64) -> (r: String)
    ensures
        r@ == decimal_chars(value as nat),
    decreases value,
{
    let mut out = if value < 10 {
        let empty = String::from_str("");
        proof {
            reveal_strlit("");
        }
        empty
    } else {
        decimal_text(value / 10)
    };
    let ghost before = out@;
    crate::store::push_hex(&mut out, (value % 10) as u8);
    proof {
        if value < 10 {
            assert(before =~= Seq::<char>::empty());
        }
        assert(out@ =~= decimal_chars(value as nat));
    }
    out
}

} // verus!
