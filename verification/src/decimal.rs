//! Decimal rendering of ids, for the handlers' error messages.

use vstd::prelude::*;
use vstd::string::StringExecFns;

verus! {

/// The character of one decimal digit.
pub open spec fn digit_char(d: u64) -> char {
    if d == 0 {
        '0'
    } else if d == 1 {
        '1'
    } else if d == 2 {
        '2'
    } else if d == 3 {
        '3'
    } else if d == 4 {
        '4'
    } else if d == 5 {
        '5'
    } else if d == 6 {
        '6'
    } else if d == 7 {
        '7'
    } else if d == 8 {
        '8'
    } else {
        '9'
    }
}

/// The decimal digits of a number, most significant first.
pub open spec fn dec_digits(x: u64) -> Seq<char>
    decreases x,
{
    if x < 10 {
        seq![digit_char(x)]
    } else {
        dec_digits(x / 10).push(digit_char(x % 10))
    }
}

fn digit_str(d: u64) -> (r: &'static str)
    requires
        d < 10,
    ensures
        r@ == seq![digit_char(d)],
{
    proof {
        reveal_strlit("0");
        reveal_strlit("1");
        reveal_strlit("2");
        reveal_strlit("3");
        reveal_strlit("4");
        reveal_strlit("5");
        reveal_strlit("6");
        reveal_strlit("7");
        reveal_strlit("8");
        reveal_strlit("9");
    }
    let r = match d {
        0 => "0",
        1 => "1",
        2 => "2",
        3 => "3",
        4 => "4",
        5 => "5",
        6 => "6",
        7 => "7",
        8 => "8",
        _ => "9",
    };
    proof {
        assert(r@ =~= seq![digit_char(d)]);
    }
    r
}

/// Render a number in decimal.
pub fn u64_to_decimal(x: u64) -> (s: String)
    ensures
        s@ == dec_digits(x),
    decreases x,
{
    let d = digit_str(x % 10);
    if x < 10 {
        d.to_owned()
    } else {
        let mut s = u64_to_decimal(x / 10);
        s.append(d);
        proof {
            assert(s@ =~= dec_digits(x));
        }
        s
    }
}

/// The message text around an id: the prefix, the id in decimal, and the
/// suffix.
pub open spec fn id_message(prefix: Seq<char>, id: u64, suffix: Seq<char>) -> Seq<char> {
    prefix + dec_digits(id) + suffix
}

/// Build the message text around an id.
pub fn format_id_message(prefix: &str, id: u64, suffix: &str) -> (s: String)
    ensures
        s@ == id_message(prefix@, id, suffix@),
{
    let mut s = prefix.to_owned();
    let digits = u64_to_decimal(id);
    s.append(digits.as_str());
    s.append(suffix);
    s
}

} // verus!
