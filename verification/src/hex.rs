//! Hexadecimal rendering of 256-bit words, as the prestate dump emits
//! them: storage keys and values are zero-padded to 64 nibbles with a
//! `0x` prefix; balances and nonces use the shortest form.

use crate::types::U256;
use vstd::prelude::*;
use vstd::string::StringExecFns;

verus! {

/// The lower-case hex digit of a value below sixteen.
pub open spec fn hex_char(n: u128) -> char {
    if n == 0 {
        '0'
    } else if n == 1 {
        '1'
    } else if n == 2 {
        '2'
    } else if n == 3 {
        '3'
    } else if n == 4 {
        '4'
    } else if n == 5 {
        '5'
    } else if n == 6 {
        '6'
    } else if n == 7 {
        '7'
    } else if n == 8 {
        '8'
    } else if n == 9 {
        '9'
    } else if n == 10 {
        'a'
    } else if n == 11 {
        'b'
    } else if n == 12 {
        'c'
    } else if n == 13 {
        'd'
    } else if n == 14 {
        'e'
    } else {
        'f'
    }
}

/// The low `digits` hex digits of `v`, most significant first.
pub open spec fn hex_digits(v: u128, digits: nat) -> Seq<char>
    decreases digits,
{
    if digits == 0 {
        Seq::empty()
    } else {
        hex_digits(v / 16, (digits - 1) as nat).push(hex_char(v % 16))
    }
}

/// A 256-bit word as exactly 64 hex digits, most significant first.
pub open spec fn hex64_digits(u: U256) -> Seq<char> {
    hex_digits(u.hi, 32) + hex_digits(u.lo, 32)
}

/// The shortest hex form of `v`: no leading zeros, and a single `0` for
/// zero.
pub open spec fn hex_min_digits(v: u128) -> Seq<char>
    decreases v,
{
    if v < 16 {
        seq![hex_char(v as u128)]
    } else {
        hex_min_digits(v / 16).push(hex_char(v % 16))
    }
}

/// The shortest hex form of a 256-bit word.
pub open spec fn hex256_min_digits(u: U256) -> Seq<char> {
    if u.hi == 0 {
        hex_min_digits(u.lo)
    } else {
        hex_min_digits(u.hi) + hex_digits(u.lo, 32)
    }
}

/// The one-character string of a hex digit.
fn nibble_str(n: u128) -> (r: &'static str)
    requires
        n < 16,
    ensures
        r@ == seq![hex_char(n)],
{
    if n == 0 {
        proof {
            reveal_strlit("0");
        }
        "0"
    } else if n == 1 {
        proof {
            reveal_strlit("1");
        }
        "1"
    } else if n == 2 {
        proof {
            reveal_strlit("2");
        }
        "2"
    } else if n == 3 {
        proof {
            reveal_strlit("3");
        }
        "3"
    } else if n == 4 {
        proof {
            reveal_strlit("4");
        }
        "4"
    } else if n == 5 {
        proof {
            reveal_strlit("5");
        }
        "5"
    } else if n == 6 {
        proof {
            reveal_strlit("6");
        }
        "6"
    } else if n == 7 {
        proof {
            reveal_strlit("7");
        }
        "7"
    } else if n == 8 {
        proof {
            reveal_strlit("8");
        }
        "8"
    } else if n == 9 {
        proof {
            reveal_strlit("9");
        }
        "9"
    } else if n == 10 {
        proof {
            reveal_strlit("a");
        }
        "a"
    } else if n == 11 {
        proof {
            reveal_strlit("b");
        }
        "b"
    } else if n == 12 {
        proof {
            reveal_strlit("c");
        }
        "c"
    } else if n == 13 {
        proof {
            reveal_strlit("d");
        }
        "d"
    } else if n == 14 {
        proof {
            reveal_strlit("e");
        }
        "e"
    } else {
        proof {
            reveal_strlit("f");
        }
        "f"
    }
}

/// Render the low `digits` hex digits of `v`, most significant first.
fn hex_fixed(v: u128, digits: u32) -> (r: String)
    ensures
        r@ == hex_digits(v, digits as nat),
    decreases digits,
{
    if digits == 0 {
        String::new()
    } else {
        let mut s = hex_fixed(v / 16, digits - 1);
        s.append(nibble_str(v % 16));
        s
    }
}

/// Render the shortest hex form of `v`.
fn hex_min(v: u128) -> (r: String)
    ensures
        r@ == hex_min_digits(v),
    decreases v,
{
    if v < 16 {
        String::from_str(nibble_str(v))
    } else {
        let mut s = hex_min(v / 16);
        s.append(nibble_str(v % 16));
        s
    }
}

/// A storage key or value, `0x`-prefixed and zero-padded to 64 nibbles.
pub fn hex64(u: &U256) -> (r: String)
    ensures
        r@ == seq!['0', 'x'] + hex64_digits(*u),
{
    proof {
        reveal_strlit("0x");
    }
    let mut s = String::from_str("0x");
    let hi = hex_fixed(u.hi, 32);
    let lo = hex_fixed(u.lo, 32);
    s.append(hi.as_str());
    s.append(lo.as_str());
    proof {
        assert(s@ =~= seq!['0', 'x'] + hex64_digits(*u));
    }
    s
}

/// A balance or nonce, `0x`-prefixed in the shortest hex form.
pub fn hex_short(u: &U256) -> (r: String)
    ensures
        r@ == seq!['0', 'x'] + hex256_min_digits(*u),
{
    proof {
        reveal_strlit("0x");
    }
    let mut s = String::from_str("0x");
    if u.hi == 0 {
        let lo = hex_min(u.lo);
        s.append(lo.as_str());
    } else {
        let hi = hex_min(u.hi);
        let lo = hex_fixed(u.lo, 32);
        s.append(hi.as_str());
        s.append(lo.as_str());
        proof {
            assert(s@ =~= seq!['0', 'x'] + hex256_min_digits(*u));
        }
    }
    s
}

} // verus!
