//! Random identifiers: 16 random bytes rendered as 32 lowercase hex digits.
use vstd::prelude::*;
use rand::RngCore;

verus! {

/// The lowercase hexadecimal digit for a value in `0..16`.
pub open spec fn hex_digit(d: int) -> char {
    if d < 10 {
        crate::text::digit_char(d)
    } else if d == 10 { 'a' }
    else if d == 11 { 'b' }
    else if d == 12 { 'c' }
    else if d == 13 { 'd' }
    else if d == 14 { 'e' }
    else { 'f' }
}

/// Lowercase hex encoding: each byte becomes its high then its low nibble.
pub open spec fn spec_hex_lower(bytes: Seq<u8>) -> Seq<char>
    decreases bytes.len(),
{
    if bytes.len() == 0 {
        Seq::empty()
    } else {
        seq![hex_digit(bytes[0] as int / 16), hex_digit(bytes[0] as int % 16)]
            + spec_hex_lower(bytes.drop_first())
    }
}

/// A character is an ASCII hexadecimal digit (either case).
pub open spec fn is_hex_char(c: char) -> bool {
    ('0' <= c && c <= '9') || ('a' <= c && c <= 'f') || ('A' <= c && c <= 'F')
}

/// A well-formed identifier: 32 lowercase hexadecimal digits.
pub open spec fn is_hex_id(s: Seq<char>) -> bool {
    &&& s.len() == 32
    &&& exists|b: Seq<u8>| b.len() == 16 && s == spec_hex_lower(b)
}

/// The encoding doubles the length and yields only lowercase hex digits.
pub proof fn lemma_hex_lower_shape(bytes: Seq<u8>)
    ensures
        spec_hex_lower(bytes).len() == 2 * bytes.len(),
        forall|i: int| 0 <= i < spec_hex_lower(bytes).len() ==> is_hex_char(#[trigger] spec_hex_lower(bytes)[i]),
    decreases bytes.len(),
{
    if bytes.len() > 0 {
        lemma_hex_lower_shape(bytes.drop_first());
        let rest = spec_hex_lower(bytes.drop_first());
        let head = seq![hex_digit(bytes[0] as int / 16), hex_digit(bytes[0] as int % 16)];
        assert(spec_hex_lower(bytes) == head + rest);
        assert forall|i: int| 0 <= i < spec_hex_lower(bytes).len() implies is_hex_char(#[trigger] spec_hex_lower(bytes)[i]) by {
            if i >= 2 {
                assert(spec_hex_lower(bytes)[i] == rest[i - 2]);
            }
        }
    }
}

/// Sixteen bytes from the operating system's random source, or `None` when
/// that source fails.
///
/// Calls `rand::RngCore::try_fill_bytes` on `rand::rngs::OsRng`, which asks
/// `getrandom` and reports its failure as an error instead of panicking. The
/// bytes depend on chance, so the contract states only their number, which
/// the buffer fixes.
#[verifier::external_body]
fn random_bytes16() -> (r: Option<Vec<u8>>)
    ensures
        r matches Some(v) ==> v@.len() == 16,
{
    let mut bytes = [0u8; 16];
    match rand::rngs::OsRng.try_fill_bytes(&mut bytes) {
        Ok(()) => Some(bytes.to_vec()),
        Err(_) => None,
    }
}

/// Lowercase hex encoding of a byte slice.
///
/// Calls `hex::encode`, whose documentation and source map each byte to its
/// high and its low nibble through the table `0123456789abcdef`.
#[verifier::external_body]
fn hex_encode(bytes: &[u8]) -> (r: String)
    ensures
        r@ == spec_hex_lower(bytes@),
{
    hex::encode(bytes)
}

/// A fresh random identifier of 32 lowercase hex digits, or `None` when the
/// operating system's random source fails.
pub fn generate_hex_id() -> (r: Option<String>)
    ensures
        r matches Some(s) ==> is_hex_id(s@),
{
    let bytes = match random_bytes16() {
        Some(b) => b,
        None => return None,
    };
    let r = hex_encode(bytes.as_slice());
    proof {
        lemma_hex_lower_shape(bytes@);
        assert(bytes@.len() == 16 && r@ == spec_hex_lower(bytes@));
    }
    Some(r)
}

} // verus!
