//! The functions the Python module offers.
use vstd::prelude::*;

verus! {

/// The character of a decimal digit.
pub open spec fn decimal_digit(d: int) -> char {
    (('0' as int) + d) as char
}

/// The decimal text of a number, without leading zeros.
pub open spec fn decimal_text(n: nat) -> Seq<char>
    decreases n,
{
    if n < 10 {
        seq![decimal_digit(n as int)]
    } else {
        decimal_text(n / 10) + seq![decimal_digit((n % 10) as int)]
    }
}

/// `ToString::to_string` on a `usize`: its decimal text.
#[verifier::external_body]
fn usize_to_string(n: usize) -> (r: String)
    ensures
        r@ == decimal_text(n as nat),
{
    n.to_string()
}

/// The sum of two numbers, as decimal text.
pub fn sum_as_string(a: usize, b: usize) -> (r: String)
    requires
        a + b <= usize::MAX,
    ensures
        r@ == decimal_text((a + b) as nat),
{
    usize_to_string(a + b)
}

} // verus!
