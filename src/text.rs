//! Text forms of binary values: lower-case hexadecimal and the hyphenated
//! form of a profile identifier.
use vstd::prelude::*;

verus! {

/// The lower-case hex digit of `d` (below 16).
pub open spec fn hex_digit(d: nat) -> char {
    if d < 10 {
        (d + 48) as char
    } else {
        (d - 10 + 97) as char
    }
}

/// Two lower-case hex digits per byte, high nibble first.
pub open spec fn hex_of(b: Seq<u8>) -> Seq<char>
    decreases b.len(),
{
    if b.len() == 0 {
        Seq::empty()
    } else {
        seq![hex_digit(b[0] as nat / 16), hex_digit(b[0] as nat % 16)] + hex_of(b.drop_first())
    }
}

/// The 32 hex digits of a 16-byte identifier in groups of 8, 4, 4, 4 and 12,
/// joined by hyphens.
pub open spec fn hyphenated(b: Seq<u8>) -> Seq<char> {
    let h = hex_of(b);
    h.subrange(0, 8) + seq!['-'] + h.subrange(8, 12) + seq!['-'] + h.subrange(12, 16) + seq!['-']
        + h.subrange(16, 20) + seq!['-'] + h.subrange(20, 32)
}

/// Relies on uuid's `Uuid::from_bytes(..).to_hyphenated().to_string()`: the
/// bytes in order as lower-case hex, hyphens after the 8th, 12th, 16th and
/// 20th digit.
#[verifier::external_body]
pub(crate) fn uuid_text(bytes: [u8; 16]) -> (r: String)
    ensures
        r@ == hyphenated(bytes@),
{
    uuid::Uuid::from_bytes(bytes).to_hyphenated().to_string()
}

} // verus!
