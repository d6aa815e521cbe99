//! Decimal rendering of commit identifiers and commit header strings.
//!
//! A commit header is shown as `<id>-<message>`; the id must round-trip
//! through the text, so the format is pinned down exactly.

use vstd::prelude::*;
use vstd::string::StringExecFns;

verus! {

/// The character of one decimal digit.
pub open spec fn digit_char(d: int) -> char {
    if d == 0 {
        '0'
    } else if d == 1 {
        '1'
    } else if d == 2 {
        '2'
    } else if d == 3 {
        '3'
    } else if d == 4 {
        '4'
    } else if d == 5 {
        '5'
    } else if d == 6 {
        '6'
    } else if d == 7 {
        '7'
    } else if d == 8 {
        '8'
    } else {
        '9'
    }
}

/// The decimal rendering of a non-negative integer, most significant digit
/// first and without leading zeroes (except for zero itself).
pub open spec fn decimal_str(n: int) -> Seq<char>
    decreases n,
{
    if n < 0 {
        Seq::empty()
    } else if n < 10 {
        seq![digit_char(n)]
    } else {
        decimal_str(n / 10).push(digit_char(n % 10))
    }
}

/// The header text of a commit: its id in decimal, a dash, its message.
pub open spec fn spec_commit_header(id: int, message: Seq<char>) -> Seq<char> {
    decimal_str(id) + seq!['-'] + message
}

/// Appends the character of one decimal digit to a string.
fn push_digit(s: &mut String, d: isize)
    requires
        0 <= d <= 9,
    ensures
        final(s)@ == old(s)@.push(digit_char(d as int)),
{
    let c: &'static str = match d {
        0 => "0",
        1 => "1",
        2 => "2",
        3 => "3",
        4 => "4",
        5 => "5",
        6 => "6",
        7 => "7",
        8 => "8",
        _ => "9",
    };
    proof {
        reveal_strlit("0");
        reveal_strlit("1");
        reveal_strlit("2");
        reveal_strlit("3");
        reveal_strlit("4");
        reveal_strlit("5");
        reveal_strlit("6");
        reveal_strlit("7");
        reveal_strlit("8");
        reveal_strlit("9");
        assert(c@ =~= seq![digit_char(d as int)]);
    }
    s.append(c);
    proof {
        assert(old(s)@ + c@ =~= old(s)@.push(digit_char(d as int)));
    }
}

/// Appends the decimal rendering of `n` to a string.
fn append_decimal(n: isize, s: &mut String)
    requires
        0 <= n,
    ensures
        final(s)@ == old(s)@ + decimal_str(n as int),
    decreases n,
{
    if n < 10 {
        push_digit(s, n);
        proof {
            assert(old(s)@ + decimal_str(n as int) =~= old(s)@.push(digit_char(n as int)));
        }
    } else {
        append_decimal(n / 10, s);
        push_digit(s, n % 10);
        proof {
            assert((old(s)@ + decimal_str(n as int / 10)).push(digit_char(n as int % 10)) =~= old(
                s,
            )@ + decimal_str(n as int));
        }
    }
}

/// The decimal rendering of a non-negative integer.
pub fn format_decimal(n: isize) -> (r: String)
    requires
        0 <= n,
    ensures
        r@ == decimal_str(n as int),
{
    let mut s = String::new();
    append_decimal(n, &mut s);
    proof {
        assert(Seq::<char>::empty() + decimal_str(n as int) =~= decimal_str(n as int));
    }
    s
}

/// The display header of a commit: `<id>-<message>`.
pub fn format_commit_header(id: isize, message: &String) -> (r: String)
    requires
        0 <= id,
    ensures
        r@ == spec_commit_header(id as int, message@),
{
    let mut s = format_decimal(id);
    proof {
        reveal_strlit("-");
        assert("-"@ =~= seq!['-']);
    }
    s.append("-");
    s.append(message.as_str());
    proof {
        assert((decimal_str(id as int) + "-"@) + message@ =~= spec_commit_header(
            id as int,
            message@,
        ));
    }
    s
}

} // verus!
