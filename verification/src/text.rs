//! Decimal rendering of copy numbers, for the suffixed identifiers of
//! expanded items.

use vstd::prelude::*;

verus! {

/// The character of one decimal digit.
pub open spec fn dec_digit_char(d: int) -> char {
    if d == 0 {
        '0'
    } else if d == 1 {
        '1'
    } else if d == 2 {
        '2'
    } else if d == 3 {
        '3'
    } else if d == 4 {
        '4'
    } else if d == 5 {
        '5'
    } else if d == 6 {
        '6'
    } else if d == 7 {
        '7'
    } else if d == 8 {
        '8'
    } else {
        '9'
    }
}

/// The decimal digits of a non-negative number, most significant first.
pub open spec fn dec_digits(n: int) -> Seq<char>
    decreases n,
{
    if n < 10 {
        seq![dec_digit_char(n)]
    } else {
        dec_digits(n / 10).push(dec_digit_char(n % 10))
    }
}

/// The identifier of the `k`-th copy of an item: the item's own identifier,
/// an underscore, and the copy number.
pub open spec fn suffixed_id(id: Seq<char>, k: int) -> Seq<char> {
    id + seq!['_'] + dec_digits(k)
}

/// One decimal digit as a string slice.
fn digit_str(d: u32) -> (r: &'static str)
    requires
        d < 10,
    ensures
        r@ == seq![dec_digit_char(d as int)],
{
    proof {
        reveal_strlit("0");
        reveal_strlit("1");
        reveal_strlit("2");
        reveal_strlit("3");
        reveal_strlit("4");
        reveal_strlit("5");
        reveal_strlit("6");
        reveal_strlit("7");
        reveal_strlit("8");
        reveal_strlit("9");
    }
    let r = match d {
        0 => "0",
        1 => "1",
        2 => "2",
        3 => "3",
        4 => "4",
        5 => "5",
        6 => "6",
        7 => "7",
        8 => "8",
        _ => "9",
    };
    proof {
        assert(r@ =~= seq![dec_digit_char(d as int)]);
    }
    r
}

/// Renders a number in decimal.
pub(crate) fn u32_decimal(n: u32) -> (s: String)
    ensures
        s@ == dec_digits(n as int),
    decreases n,
{
    if n < 10 {
        String::from_str(digit_str(n))
    } else {
        let rest = u32_decimal(n / 10);
        let s = rest.concat(digit_str(n % 10));
        proof {
            assert(s@ =~= dec_digits(n as int));
        }
        s
    }
}

/// Builds the identifier of the `k`-th copy of an item.
pub(crate) fn make_suffixed_id(id: &String, k: u32) -> (r: String)
    ensures
        r@ == suffixed_id(id@, k as int),
{
    proof {
        reveal_strlit("_");
    }
    let r = id.clone().concat("_").concat(u32_decimal(k).as_str());
    proof {
        assert("_"@ =~= seq!['_']);
        assert(r@ =~= suffixed_id(id@, k as int));
    }
    r
}

} // verus!
