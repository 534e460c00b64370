//! Text as sequences of characters: decimal numerals, slices and joins.

use vstd::prelude::*;
use vstd::string::*;

verus! {

/// The text of one decimal digit.
pub open spec fn digit_text(d: nat) -> Seq<char> {
    if d == 0 {
        "0"@
    } else if d == 1 {
        "1"@
    } else if d == 2 {
        "2"@
    } else if d == 3 {
        "3"@
    } else if d == 4 {
        "4"@
    } else if d == 5 {
        "5"@
    } else if d == 6 {
        "6"@
    } else if d == 7 {
        "7"@
    } else if d == 8 {
        "8"@
    } else {
        "9"@
    }
}

/// The decimal numeral of `n`, without leading zeros.
pub open spec fn decimal(n: nat) -> Seq<char>
    decreases n,
{
    if n < 10 {
        digit_text(n)
    } else {
        decimal(n / 10) + digit_text(n % 10)
    }
}

/// The characters of `s` from index `from` up to, not including, index `to`,
/// both clipped to the length of `s`.
pub open spec fn slice(s: Seq<char>, from: int, to: int) -> Seq<char> {
    let end = if to < s.len() { to } else { s.len() as int };
    if 0 <= from <= end {
        s.subrange(from, end)
    } else {
        Seq::empty()
    }
}

fn digit_str(d: usize) -> (s: &'static str)
    requires
        d < 10,
    ensures
        s@ == digit_text(d as nat),
{
    if d == 0 {
        "0"
    } else if d == 1 {
        "1"
    } else if d == 2 {
        "2"
    } else if d == 3 {
        "3"
    } else if d == 4 {
        "4"
    } else if d == 5 {
        "5"
    } else if d == 6 {
        "6"
    } else if d == 7 {
        "7"
    } else if d == 8 {
        "8"
    } else {
        "9"
    }
}

/// Writes `n` as a decimal numeral.
pub fn decimal_text(n: usize) -> (s: String)
    ensures
        s@ == decimal(n as nat),
    decreases n,
{
    if n < 10 {
        String::from_str(digit_str(n))
    } else {
        let mut s = decimal_text(n / 10);
        s.append(digit_str(n % 10));
        s
    }
}

/// Copies the characters of `s` from index `from` up to index `to`, both
/// clipped to the length of `s`.
pub fn slice_text(s: &String, from: usize, to: usize) -> (r: String)
    ensures
        r@ == slice(s@, from as int, to as int),
        s@.len() <= usize::MAX,
{
    let len = s.as_str().unicode_len();
    let end = if to < len { to } else { len };
    if from <= end {
        String::from_str(s.as_str().substring_char(from, end))
    } else {
        String::new()
    }
}

/// Joins two texts.
pub fn concat_text(a: &String, b: &String) -> (r: String)
    ensures
        r@ == a@ + b@,
{
    let mut r = a.clone();
    r.append(b.as_str());
    r
}

} // verus!
