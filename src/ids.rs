//! Identity ids: drawing fresh ones and their text form.
use vstd::prelude::*;
use vstd::arithmetic::power2::pow2;

verus! {

/// The lower-case hexadecimal digit of `n`, for `0 <= n < 16`.
pub open spec fn hex_digit(n: int) -> char {
    seq!['0', '1', '2', '3', '4', '5', '6', '7', '8', '9', 'a', 'b', 'c', 'd', 'e', 'f'][n]
}

/// The `k`-th of the id's 32 four-bit digits, most significant first.
pub open spec fn nibble(id: u128, k: int) -> int {
    (id as int / pow2((4 * (31 - k)) as nat) as int) % 16
}

/// How many hyphens come before position `i` of the text form.
pub open spec fn hyphens_before(i: int) -> int {
    if i < 8 {
        0
    } else if i < 13 {
        1
    } else if i < 18 {
        2
    } else if i < 23 {
        3
    } else {
        4
    }
}

/// The text form of an id: its 32 hex digits in lower case, most significant
/// first, in groups of 8, 4, 4, 4 and 12 joined by hyphens.
pub open spec fn uuid_text(id: u128) -> Seq<char> {
    Seq::new(
        36,
        |i: int|
            if i == 8 || i == 13 || i == 18 || i == 23 {
                '-'
            } else {
                hex_digit(nibble(id, i - hyphens_before(i)))
            },
    )
}

/// Relies on `uuid::Uuid::from_u128` (the id's big-endian bytes) and uuid's
/// `Display`, which writes them hyphenated in lower-case hex.
#[verifier::external_body]
pub(crate) fn uuid_to_string(id: u128) -> (r: String)
    ensures
        r@ == uuid_text(id),
{
    uuid::Uuid::from_u128(id).to_string()
}

/// Relies on `uuid::Uuid::new_v4`: a random id, of which nothing is promised
/// here.
#[verifier::external_body]
pub(crate) fn new_uuid_v4() -> (r: u128) {
    uuid::Uuid::new_v4().as_u128()
}

} // verus!
