//! Reading numbers and comma-separated lists out of text.
use vstd::prelude::*;

verus! {

/// Whether a character is an ASCII decimal digit.
pub open spec fn is_digit(c: char) -> bool {
    '0' <= c && c <= '9'
}

/// The number a sequence of decimal digits stands for.
pub open spec fn digits_value(d: Seq<char>) -> int
    decreases d.len(),
{
    if d.len() == 0 {
        0
    } else {
        digits_value(d.drop_last()) * 10 + (d.last() as int - '0' as int)
    }
}

/// What the standard library's `str::parse` gives for an unsigned integer
/// type whose largest value is `max`: an optional leading `+`, then one or
/// more ASCII digits, whose value must not exceed `max`; anything else is an
/// error (`None`).
pub open spec fn parsed_unsigned(s: Seq<char>, max: int) -> Option<int> {
    let d = if s.len() > 0 && s[0] == '+' {
        s.drop_first()
    } else {
        s
    };
    if d.len() > 0 && (forall|i: int| 0 <= i < d.len() ==> is_digit(#[trigger] d[i])) && digits_value(d)
        <= max {
        Some(digits_value(d))
    } else {
        None
    }
}

/// The pieces of `s` between commas, in order: one more piece than commas.
pub open spec fn split_commas_spec(s: Seq<char>) -> Seq<Seq<char>>
    decreases s.len(),
{
    if s.len() == 0 {
        seq![Seq::<char>::empty()]
    } else {
        let rest = split_commas_spec(s.drop_last());
        if s.last() == ',' {
            rest.push(Seq::<char>::empty())
        } else {
            rest.update(rest.len() - 1, rest.last().push(s.last()))
        }
    }
}

/// `str::parse::<usize>`: the value, or `None` on an error.
#[verifier::external_body]
pub(crate) fn parse_usize(s: &str) -> (r: Option<usize>)
    ensures
        r is Some <==> parsed_unsigned(s@, usize::MAX as int) is Some,
        r matches Some(v) ==> v == parsed_unsigned(s@, usize::MAX as int)->0,
{
    s.parse::<usize>().ok()
}

/// `str::parse::<u32>`: the value, or `None` on an error.
#[verifier::external_body]
pub(crate) fn parse_u32(s: &str) -> (r: Option<u32>)
    ensures
        r is Some <==> parsed_unsigned(s@, u32::MAX as int) is Some,
        r matches Some(v) ==> v == parsed_unsigned(s@, u32::MAX as int)->0,
{
    s.parse::<u32>().ok()
}

/// `str::parse::<u8>`: the value, or `None` on an error.
#[verifier::external_body]
pub(crate) fn parse_u8(s: &str) -> (r: Option<u8>)
    ensures
        r is Some <==> parsed_unsigned(s@, u8::MAX as int) is Some,
        r matches Some(v) ==> v == parsed_unsigned(s@, u8::MAX as int)->0,
{
    s.parse::<u8>().ok()
}

/// `str::split` with the pattern `","`, each piece copied into a `String`.
#[verifier::external_body]
pub(crate) fn split_commas(s: &str) -> (r: Vec<String>)
    ensures
        r@.len() == split_commas_spec(s@).len(),
        forall|i: int| 0 <= i < r@.len() ==> #[trigger] r@[i]@ == split_commas_spec(s@)[i],
{
    s.split(',').map(String::from).collect()
}

/// Whether `a` reads exactly `b`.
pub fn text_is(a: &str, b: &str) -> (r: bool)
    ensures
        r == (a@ == b@),
{
    let n = a.unicode_len();
    let m = b.unicode_len();
    if n != m {
        return false;
    }
    let mut i: usize = 0;
    while i < n
        invariant
            i <= n,
            n == a@.len(),
            m == b@.len(),
            n == m,
            forall|j: int| 0 <= j < i ==> a@[j] == b@[j],
        decreases n - i,
    {
        if a.get_char(i) != b.get_char(i) {
            return false;
        }
        i = i + 1;
    }
    assert(a@ =~= b@);
    true
}

} // verus!
