//! Trusted boundary: the few calls the library makes into code Verus does
//! not verify. Each item's contract is what the callee's source or
//! documentation plainly shows.
use vstd::prelude::*;

verus! {

/// The Unicode uppercase mapping of one scalar value, as a sequence of
/// scalar values. The mapping is a function of the character alone.
pub uninterp spec fn upper_of(c: char) -> Seq<char>;

/// Relies on `char::to_uppercase`: yields the uppercase equivalent of `c`
/// as one or more scalar values, depending only on `c` itself.
#[verifier::external_body]
pub fn char_to_uppercase(c: char) -> (r: String)
    ensures
        r@ == upper_of(c),
        r@.len() >= 1,
{
    c.to_uppercase().collect()
}

/// The lowercase hex rendering of a byte sequence: two digits per byte,
/// high nibble first, digits `0-9a-f`.
pub open spec fn hex_of(b: Seq<u8>) -> Seq<char> {
    Seq::new(
        2 * b.len(),
        |i: int|
            {
                let byte = b[i / 2];
                let nibble = if i % 2 == 0 {
                    byte / 16
                } else {
                    byte % 16
                };
                crate::outside::hex_digit(nibble as int)
            },
    )
}

/// The hex digit character for `d` (`0 <= d <= 15`), lowercase.
pub open spec fn hex_digit(d: int) -> char {
    if d < 10 {
        crate::text::dec_digit(d)
    } else if d == 10 {
        'a'
    } else if d == 11 {
        'b'
    } else if d == 12 {
        'c'
    } else if d == 13 {
        'd'
    } else if d == 14 {
        'e'
    } else {
        'f'
    }
}

/// Relies on `hex::encode`: renders each byte as two lowercase hex digits,
/// high nibble first, from the table `0123456789abcdef`.
#[verifier::external_body]
pub fn hex_encode(b: &Vec<u8>) -> (r: String)
    ensures
        r@ == hex_of(b@),
{
    hex::encode(b)
}

} // verus!
