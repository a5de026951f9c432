use vstd::prelude::*;

verus! {

/// The decimal digit character for `d`, for `d < 10`.
pub open spec fn digit_char(d: nat) -> char {
    if d == 0 {
        '0'
    } else if d == 1 {
        '1'
    } else if d == 2 {
        '2'
    } else if d == 3 {
        '3'
    } else if d == 4 {
        '4'
    } else if d == 5 {
        '5'
    } else if d == 6 {
        '6'
    } else if d == 7 {
        '7'
    } else if d == 8 {
        '8'
    } else {
        '9'
    }
}

/// The decimal notation of `n`: most significant digit first, no sign, no leading zeros.
pub open spec fn decimal(n: nat) -> Seq<char>
    decreases n,
{
    if n < 10 {
        seq![digit_char(n)]
    } else {
        decimal(n / 10).push(digit_char(n % 10))
    }
}

/// Relies on the `Display` impl of `u32` (through `to_string`), which writes
/// the number in decimal digits with no sign and no padding.
#[verifier::external_body]
pub(crate) fn decimal_string(n: u32) -> (r: String)
    ensures
        r@ == decimal(n as nat),
{
    n.to_string()
}

} // verus!
