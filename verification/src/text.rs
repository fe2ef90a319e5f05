//! Textual rendering of values bound into graph-store statements:
//! addresses as lower-case hex strings, reserves as decimal strings.

use vstd::prelude::*;
use vstd::string::StringExecFns;

verus! {

/// The lower-case hex character for a value below 16.
pub open spec fn hex_char_of(n: u8) -> char {
    if n == 0 {
        '0'
    } else if n == 1 {
        '1'
    } else if n == 2 {
        '2'
    } else if n == 3 {
        '3'
    } else if n == 4 {
        '4'
    } else if n == 5 {
        '5'
    } else if n == 6 {
        '6'
    } else if n == 7 {
        '7'
    } else if n == 8 {
        '8'
    } else if n == 9 {
        '9'
    } else if n == 10 {
        'a'
    } else if n == 11 {
        'b'
    } else if n == 12 {
        'c'
    } else if n == 13 {
        'd'
    } else if n == 14 {
        'e'
    } else {
        'f'
    }
}

/// The lower-case hex rendering of a byte sequence, two characters per byte.
pub open spec fn hex_of(bs: Seq<u8>) -> Seq<char>
    decreases bs.len(),
{
    if bs.len() == 0 {
        Seq::empty()
    } else {
        hex_of(bs.drop_last()) + seq![
            hex_char_of(bs.last() / 16),
            hex_char_of(bs.last() % 16),
        ]
    }
}

/// The canonical textual form of an address: `0x` followed by its
/// lower-case hex rendering.
pub open spec fn addr_hex(bs: Seq<u8>) -> Seq<char> {
    seq!['0', 'x'] + hex_of(bs)
}

/// The decimal rendering of a non-negative integer, no leading zeros.
pub open spec fn dec_of(n: nat) -> Seq<char>
    decreases n,
{
    if n < 10 {
        seq![hex_char_of(n as u8)]
    } else {
        dec_of(n / 10) + seq![hex_char_of((n % 10) as u8)]
    }
}

/// Appends the single character `hex_char_of(n)` to `s`.
pub fn push_digit(s: &mut String, n: u8)
    requires
        n < 16,
    ensures
        final(s)@ == old(s)@ + seq![hex_char_of(n)],
{
    if n == 0 {
        proof {
            reveal_strlit("0");
        }
        s.append("0");
    } else if n == 1 {
        proof {
            reveal_strlit("1");
        }
        s.append("1");
    } else if n == 2 {
        proof {
            reveal_strlit("2");
        }
        s.append("2");
    } else if n == 3 {
        proof {
            reveal_strlit("3");
        }
        s.append("3");
    } else if n == 4 {
        proof {
            reveal_strlit("4");
        }
        s.append("4");
    } else if n == 5 {
        proof {
            reveal_strlit("5");
        }
        s.append("5");
    } else if n == 6 {
        proof {
            reveal_strlit("6");
        }
        s.append("6");
    } else if n == 7 {
        proof {
            reveal_strlit("7");
        }
        s.append("7");
    } else if n == 8 {
        proof {
            reveal_strlit("8");
        }
        s.append("8");
    } else if n == 9 {
        proof {
            reveal_strlit("9");
        }
        s.append("9");
    } else if n == 10 {
        proof {
            reveal_strlit("a");
        }
        s.append("a");
    } else if n == 11 {
        proof {
            reveal_strlit("b");
        }
        s.append("b");
    } else if n == 12 {
        proof {
            reveal_strlit("c");
        }
        s.append("c");
    } else if n == 13 {
        proof {
            reveal_strlit("d");
        }
        s.append("d");
    } else if n == 14 {
        proof {
            reveal_strlit("e");
        }
        s.append("e");
    } else {
        proof {
            reveal_strlit("f");
        }
        s.append("f");
    }
    proof {
        assert(final(s)@ =~= old(s)@ + seq![hex_char_of(n)]);
    }
}

/// Appends the hex rendering of the first `upto` bytes of `bs` to `s`.
fn push_hex_prefix(s: &mut String, bs: &Vec<u8>, upto: usize)
    requires
        upto <= bs@.len(),
    ensures
        final(s)@ == old(s)@ + hex_of(bs@.subrange(0, upto as int)),
    decreases upto,
{
    if upto == 0 {
        proof {
            assert(old(s)@ + hex_of(bs@.subrange(0, 0)) =~= old(s)@);
        }
    } else {
        push_hex_prefix(s, bs, upto - 1);
        let b = bs[upto - 1];
        push_digit(s, b / 16);
        push_digit(s, b % 16);
        proof {
            let pre = bs@.subrange(0, upto as int);
            assert(pre.drop_last() =~= bs@.subrange(0, upto - 1));
            assert(pre.last() == b);
            assert(final(s)@ =~= old(s)@ + hex_of(pre));
        }
    }
}

/// The textual form of an address: `0x` followed by its lower-case hex
/// rendering.
pub fn hex_string_of_bytes(bs: &Vec<u8>) -> (r: String)
    ensures
        r@ == addr_hex(bs@),
{
    let mut s = String::new();
    proof {
        reveal_strlit("0x");
    }
    s.append("0x");
    push_hex_prefix(&mut s, bs, bs.len());
    proof {
        assert(bs@.subrange(0, bs@.len() as int) =~= bs@);
        assert(s@ =~= addr_hex(bs@));
    }
    s
}

/// Appends the decimal rendering of `n` to `s`.
fn push_decimal(s: &mut String, n: u128)
    ensures
        final(s)@ == old(s)@ + dec_of(n as nat),
    decreases n,
{
    if n < 10 {
        push_digit(s, n as u8);
    } else {
        push_decimal(s, n / 10);
        push_digit(s, (n % 10) as u8);
        proof {
            assert(final(s)@ =~= old(s)@ + dec_of(n as nat));
        }
    }
}

/// The decimal textual form of a reserve value.
pub fn decimal_string_of(n: u128) -> (r: String)
    ensures
        r@ == dec_of(n as nat),
{
    let mut s = String::new();
    push_decimal(&mut s, n);
    proof {
        assert(s@ =~= dec_of(n as nat));
    }
    s
}

} // verus!
