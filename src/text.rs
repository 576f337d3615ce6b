use vstd::prelude::*;

verus! {

/// The character of a decimal digit.
pub open spec fn digit_char(d: nat) -> char {
    if d == 0 {
        '0'
    } else if d == 1 {
        '1'
    } else if d == 2 {
        '2'
    } else if d == 3 {
        '3'
    } else if d == 4 {
        '4'
    } else if d == 5 {
        '5'
    } else if d == 6 {
        '6'
    } else if d == 7 {
        '7'
    } else if d == 8 {
        '8'
    } else {
        '9'
    }
}

/// The decimal notation of `n`, most significant digit first, without leading zeros.
pub open spec fn decimal(n: nat) -> Seq<char>
    decreases n,
{
    if n < 10 {
        seq![digit_char(n)]
    } else {
        decimal(n / 10).push(digit_char(n % 10))
    }
}

/// The start of the message of a bid that takes the lead.
pub open spec fn new_high_prefix() -> Seq<char> {
    "Bid placed successfully. New highest bid: "@
}

/// The message of a bid that is recorded but does not lead.
pub open spec fn too_low_text() -> Seq<char> {
    "Bid amount too low, but you have been added to the voted list."@
}

/// The message of a successful close.
pub open spec fn closed_text() -> Seq<char> {
    "Lot closed; ownership passed to the highest bidder."@
}

/// Relies on `format!` with std's `Display` for `u64`, which writes the
/// number in decimal without leading zeros.
#[verifier::external_body]
pub(crate) fn new_high_message(amount: u64) -> (r: String)
    ensures
        r@ == new_high_prefix() + decimal(amount as nat),
{
    format!("Bid placed successfully. New highest bid: {}", amount)
}

pub(crate) fn too_low_message() -> (r: String)
    ensures
        r@ == too_low_text(),
{
    "Bid amount too low, but you have been added to the voted list.".to_owned()
}

pub(crate) fn closed_message() -> (r: String)
    ensures
        r@ == closed_text(),
{
    "Lot closed; ownership passed to the highest bidder.".to_owned()
}

} // verus!
