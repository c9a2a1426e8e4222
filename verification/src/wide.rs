//! 512-bit unsigned integers from `primitive-types`, held as their eight
//! little-endian 64-bit words, and the operations the analyses use on them.
use vstd::prelude::*;
use vstd::arithmetic::power2::pow2;
use crate::text::{all_radix_digits, radix_value, is_prefix};

verus! {

/// The value of eight little-endian 64-bit words.
pub open spec fn words_value(w: [u64; 8]) -> nat {
    w[0] as nat + w[1] as nat * pow2(64) + w[2] as nat * pow2(128) + w[3] as nat * pow2(192) + w[4] as nat * pow2(
        256,
    ) + w[5] as nat * pow2(320) + w[6] as nat * pow2(384) + w[7] as nat * pow2(448)
}

/// The text `U512::from_str` reads: `s` without one leading `0x`.
pub open spec fn hex_digits(s: Seq<char>) -> Seq<char> {
    if is_prefix("0x"@, s) {
        s.subrange(2, s.len() as int)
    } else {
        s
    }
}

/// `U512::from_str` (hexadecimal, as `primitive_types` reads it): after one
/// leading `0x` is removed, at most 128 hexadecimal digits, read as a number
/// (no digits read as 0). The result's words hold that number.
#[verifier::external_body]
pub(crate) fn u512_from_hex_str(s: &str) -> (r: Option<[u64; 8]>)
    ensures
        r is Some <==> (hex_digits(s@).len() <= 128 && all_radix_digits(hex_digits(s@), 16)),
        r matches Some(w) ==> words_value(w) == radix_value(hex_digits(s@), 16),
{
    <primitive_types::U512 as core::str::FromStr>::from_str(s).ok().map(|v| v.0)
}

/// `U512::from_dec_str`: a string of decimal digits whose value is below
/// 2^512 (no digits read as 0). The result's words hold that number.
#[verifier::external_body]
pub(crate) fn u512_from_dec_str(s: &str) -> (r: Option<[u64; 8]>)
    ensures
        r is Some <==> (all_radix_digits(s@, 10) && radix_value(s@, 10) < pow2(512)),
        r matches Some(w) ==> words_value(w) == radix_value(s@, 10),
{
    primitive_types::U512::from_dec_str(s).ok().map(|v| v.0)
}

/// `U512::one()`.
#[verifier::external_body]
pub(crate) fn u512_one() -> (r: [u64; 8])
    ensures
        words_value(r) == 1,
{
    primitive_types::U512::one().0
}

/// `a << bits` on a `U512`: the bits shifted past the top are lost.
#[verifier::external_body]
pub(crate) fn u512_shl(a: [u64; 8], bits: usize) -> (r: [u64; 8])
    ensures
        words_value(r) == (words_value(a) * pow2(bits as nat)) % pow2(512),
{
    (primitive_types::U512(a) << bits).0
}

/// `a - b` on a `U512`, which panics where `b` is the larger; that input is
/// left out.
#[verifier::external_body]
pub(crate) fn u512_sub(a: [u64; 8], b: [u64; 8]) -> (r: [u64; 8])
    requires
        words_value(a) >= words_value(b),
    ensures
        words_value(r) == words_value(a) - words_value(b),
{
    (primitive_types::U512(a) - primitive_types::U512(b)).0
}

/// `U512::is_zero`.
#[verifier::external_body]
pub(crate) fn u512_is_zero(a: [u64; 8]) -> (r: bool)
    ensures
        r == (words_value(a) == 0),
{
    primitive_types::U512(a).is_zero()
}

/// `a > b` on `U512` values.
#[verifier::external_body]
pub(crate) fn u512_gt(a: [u64; 8], b: [u64; 8]) -> (r: bool)
    ensures
        r == (words_value(a) > words_value(b)),
{
    primitive_types::U512(a) > primitive_types::U512(b)
}

/// `a >= b` on `U512` values.
#[verifier::external_body]
pub(crate) fn u512_ge(a: [u64; 8], b: [u64; 8]) -> (r: bool)
    ensures
        r == (words_value(a) >= words_value(b)),
{
    primitive_types::U512(a) >= primitive_types::U512(b)
}

} // verus!
