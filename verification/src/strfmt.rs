//! Decimal and lowercase-hexadecimal rendering of small integers.
//!
//! Pool names carry the revision hash in lowercase hex, and the lease
//! ConfigMap keys are pod ordinals in decimal. Both renderings are
//! defined as spec functions over the digit sequence of the number and
//! implemented by verified recursion.

use vstd::prelude::*;

verus! {

/// The character for one digit value below sixteen.
pub open spec fn digit_char(d: nat) -> char {
    if d == 0 {
        '0'
    } else if d == 1 {
        '1'
    } else if d == 2 {
        '2'
    } else if d == 3 {
        '3'
    } else if d == 4 {
        '4'
    } else if d == 5 {
        '5'
    } else if d == 6 {
        '6'
    } else if d == 7 {
        '7'
    } else if d == 8 {
        '8'
    } else if d == 9 {
        '9'
    } else if d == 10 {
        'a'
    } else if d == 11 {
        'b'
    } else if d == 12 {
        'c'
    } else if d == 13 {
        'd'
    } else if d == 14 {
        'e'
    } else {
        'f'
    }
}

/// The decimal rendering of `n`, most significant digit first, with no
/// leading zeros (zero itself renders as "0").
pub open spec fn dec_of(n: nat) -> Seq<char>
    decreases n,
{
    if n < 10 {
        seq![digit_char(n)]
    } else {
        dec_of(n / 10).push(digit_char(n % 10))
    }
}

/// The lowercase hexadecimal rendering of `n`, most significant digit
/// first, with no leading zeros (zero itself renders as "0").
pub open spec fn hex_of(n: nat) -> Seq<char>
    decreases n,
{
    if n < 16 {
        seq![digit_char(n)]
    } else {
        hex_of(n / 16).push(digit_char(n % 16))
    }
}

/// One digit below sixteen as a string slice.
fn digit_str(d: u8) -> (r: &'static str)
    requires
        d < 16,
    ensures
        r@ == seq![digit_char(d as nat)],
{
    proof {
        reveal_strlit("0");
        reveal_strlit("1");
        reveal_strlit("2");
        reveal_strlit("3");
        reveal_strlit("4");
        reveal_strlit("5");
        reveal_strlit("6");
        reveal_strlit("7");
        reveal_strlit("8");
        reveal_strlit("9");
        reveal_strlit("a");
        reveal_strlit("b");
        reveal_strlit("c");
        reveal_strlit("d");
        reveal_strlit("e");
        reveal_strlit("f");
    }
    let r = match d {
        0 => "0",
        1 => "1",
        2 => "2",
        3 => "3",
        4 => "4",
        5 => "5",
        6 => "6",
        7 => "7",
        8 => "8",
        9 => "9",
        10 => "a",
        11 => "b",
        12 => "c",
        13 => "d",
        14 => "e",
        _ => "f",
    };
    proof {
        assert(r@ =~= seq![digit_char(d as nat)]);
    }
    r
}

/// Renders `x` in decimal.
pub fn dec_string_u32(x: u32) -> (s: String)
    ensures
        s@ == dec_of(x as nat),
    decreases x,
{
    if x < 10 {
        let r = String::from_str(digit_str((x % 10) as u8));
        r
    } else {
        let mut s = dec_string_u32(x / 10);
        s.append(digit_str((x % 10) as u8));
        proof {
            assert(s@ =~= dec_of(x as nat));
        }
        s
    }
}

/// Renders `x` in lowercase hexadecimal.
pub fn hex_string_u16(x: u16) -> (s: String)
    ensures
        s@ == hex_of(x as nat),
    decreases x,
{
    if x < 16 {
        let r = String::from_str(digit_str(x as u8));
        r
    } else {
        let mut s = hex_string_u16(x / 16);
        s.append(digit_str((x % 16) as u8));
        proof {
            assert(s@ =~= hex_of(x as nat));
        }
        s
    }
}

} // verus!
