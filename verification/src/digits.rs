//! Rendering numbers as decimal text.

use vstd::prelude::*;

verus! {

/// The decimal digit characters.
pub open spec fn digit_char(d: nat) -> char {
    if d == 0 {
        '0'
    } else if d == 1 {
        '1'
    } else if d == 2 {
        '2'
    } else if d == 3 {
        '3'
    } else if d == 4 {
        '4'
    } else if d == 5 {
        '5'
    } else if d == 6 {
        '6'
    } else if d == 7 {
        '7'
    } else if d == 8 {
        '8'
    } else {
        '9'
    }
}

/// The usual decimal rendering of a number, most significant digit first.
pub open spec fn dec_spec(n: nat) -> Seq<char>
    decreases n,
{
    if n < 10 {
        seq![digit_char(n)]
    } else {
        dec_spec(n / 10) + seq![digit_char(n % 10)]
    }
}

/// One decimal digit as text.
pub fn digit_str(d: usize) -> (r: &'static str)
    requires
        d < 10,
    ensures
        r@ == seq![digit_char(d as nat)],
{
    proof {
        reveal_strlit("0");
        reveal_strlit("1");
        reveal_strlit("2");
        reveal_strlit("3");
        reveal_strlit("4");
        reveal_strlit("5");
        reveal_strlit("6");
        reveal_strlit("7");
        reveal_strlit("8");
        reveal_strlit("9");
    }
    if d == 0 {
        "0"
    } else if d == 1 {
        "1"
    } else if d == 2 {
        "2"
    } else if d == 3 {
        "3"
    } else if d == 4 {
        "4"
    } else if d == 5 {
        "5"
    } else if d == 6 {
        "6"
    } else if d == 7 {
        "7"
    } else if d == 8 {
        "8"
    } else {
        "9"
    }
}

/// Render a number in decimal.
pub fn to_decimal(n: usize) -> (r: String)
    ensures
        r@ == dec_spec(n as nat),
    decreases n,
{
    if n < 10 {
        String::from_str(digit_str(n))
    } else {
        let q = to_decimal(n / 10);
        q.concat(digit_str(n % 10))
    }
}

/// The lowercase hexadecimal digit characters.
pub open spec fn hex_char(d: nat) -> char {
    if d < 10 {
        digit_char(d)
    } else if d == 10 {
        'a'
    } else if d == 11 {
        'b'
    } else if d == 12 {
        'c'
    } else if d == 13 {
        'd'
    } else if d == 14 {
        'e'
    } else {
        'f'
    }
}

/// A lowercase hexadecimal digit character.
pub open spec fn is_hex_digit(c: char) -> bool {
    ||| c == '0'
    ||| c == '1'
    ||| c == '2'
    ||| c == '3'
    ||| c == '4'
    ||| c == '5'
    ||| c == '6'
    ||| c == '7'
    ||| c == '8'
    ||| c == '9'
    ||| c == 'a'
    ||| c == 'b'
    ||| c == 'c'
    ||| c == 'd'
    ||| c == 'e'
    ||| c == 'f'
}

/// The usual lowercase hexadecimal rendering of a number, most significant
/// digit first.
pub open spec fn hex_spec(n: nat) -> Seq<char>
    decreases n,
{
    if n < 16 {
        seq![hex_char(n)]
    } else {
        hex_spec(n / 16) + seq![hex_char(n % 16)]
    }
}

/// A hexadecimal rendering is never empty and holds hex digits only.
pub proof fn lemma_hex_spec_digits(n: nat)
    ensures
        hex_spec(n).len() >= 1,
        forall|i: int| 0 <= i < hex_spec(n).len() ==> is_hex_digit(#[trigger] hex_spec(n)[i]),
    decreases n,
{
    if n >= 16 {
        lemma_hex_spec_digits(n / 16);
        assert forall|i: int| 0 <= i < hex_spec(n).len() implies is_hex_digit(
            #[trigger] hex_spec(n)[i],
        ) by {
            if i < hex_spec(n / 16).len() {
                assert(hex_spec(n)[i] == hex_spec(n / 16)[i]);
            } else {
                assert(hex_spec(n)[i] == hex_char(n % 16));
            }
        }
    }
}

/// One lowercase hexadecimal digit as text.
pub fn hex_digit_str(d: usize) -> (r: &'static str)
    requires
        d < 16,
    ensures
        r@ == seq![hex_char(d as nat)],
{
    proof {
        reveal_strlit("a");
        reveal_strlit("b");
        reveal_strlit("c");
        reveal_strlit("d");
        reveal_strlit("e");
        reveal_strlit("f");
    }
    if d < 10 {
        digit_str(d)
    } else if d == 10 {
        "a"
    } else if d == 11 {
        "b"
    } else if d == 12 {
        "c"
    } else if d == 13 {
        "d"
    } else if d == 14 {
        "e"
    } else {
        "f"
    }
}

/// Render a number in lowercase hexadecimal.
pub fn to_hex(n: u64) -> (r: String)
    ensures
        r@ == hex_spec(n as nat),
    decreases n,
{
    if n < 16 {
        String::from_str(hex_digit_str(n as usize))
    } else {
        let q = to_hex(n / 16);
        q.concat(hex_digit_str((n % 16) as usize))
    }
}

} // verus!
