//! Small verified text helpers for the renderer: column padding and the
//! gibibyte formatting of byte counts.

use vstd::prelude::*;
use vstd::string::{StrSliceExecFns, StringExecFns};

verus! {

/// The character of one decimal digit.
pub open spec fn digit_char(d: int) -> char {
    if d == 0 {
        '0'
    } else if d == 1 {
        '1'
    } else if d == 2 {
        '2'
    } else if d == 3 {
        '3'
    } else if d == 4 {
        '4'
    } else if d == 5 {
        '5'
    } else if d == 6 {
        '6'
    } else if d == 7 {
        '7'
    } else if d == 8 {
        '8'
    } else {
        '9'
    }
}

/// The decimal digits of `n`, most significant first, without leading zeros
/// (a single zero for `n == 0`).
pub open spec fn decimal_digits(n: nat) -> Seq<char>
    decreases n,
{
    if n < 10 {
        seq![digit_char(n as int)]
    } else {
        decimal_digits(n / 10).push(digit_char((n % 10) as int))
    }
}

/// The character string of one decimal digit.
fn digit_str(d: u64) -> (r: &'static str)
    requires
        d < 10,
    ensures
        r@ == seq![digit_char(d as int)],
{
    proof {
        reveal_strlit("0");
        reveal_strlit("1");
        reveal_strlit("2");
        reveal_strlit("3");
        reveal_strlit("4");
        reveal_strlit("5");
        reveal_strlit("6");
        reveal_strlit("7");
        reveal_strlit("8");
        reveal_strlit("9");
    }
    if d == 0 {
        proof {
            assert("0"@ =~= seq![digit_char(0)]);
        }
        "0"
    } else if d == 1 {
        proof {
            assert("1"@ =~= seq![digit_char(1)]);
        }
        "1"
    } else if d == 2 {
        proof {
            assert("2"@ =~= seq![digit_char(2)]);
        }
        "2"
    } else if d == 3 {
        proof {
            assert("3"@ =~= seq![digit_char(3)]);
        }
        "3"
    } else if d == 4 {
        proof {
            assert("4"@ =~= seq![digit_char(4)]);
        }
        "4"
    } else if d == 5 {
        proof {
            assert("5"@ =~= seq![digit_char(5)]);
        }
        "5"
    } else if d == 6 {
        proof {
            assert("6"@ =~= seq![digit_char(6)]);
        }
        "6"
    } else if d == 7 {
        proof {
            assert("7"@ =~= seq![digit_char(7)]);
        }
        "7"
    } else if d == 8 {
        proof {
            assert("8"@ =~= seq![digit_char(8)]);
        }
        "8"
    } else {
        proof {
            assert("9"@ =~= seq![digit_char(9)]);
        }
        "9"
    }
}

/// The decimal representation of `n`.
fn u64_decimal(n: u64) -> (s: String)
    ensures
        s@ == decimal_digits(n as nat),
    decreases n,
{
    if n < 10 {
        String::from_str(digit_str(n))
    } else {
        let mut s = u64_decimal(n / 10);
        let d = digit_str(n % 10);
        s.append(d);
        proof {
            assert(s@ =~= decimal_digits(n as nat));
        }
        s
    }
}

/// Pad `s` with spaces on the right to at least `size` characters; a string
/// already that long comes back unchanged.
pub fn pad_string(s: String, size: usize) -> (r: String)
    ensures
        s@.len() >= size ==> r@ == s@,
        s@.len() < size ==> {
            &&& r@.len() == size
            &&& r@.subrange(0, s@.len() as int) == s@
            &&& forall|i: int| s@.len() <= i < size ==> r@[i] == ' '
        },
{
    let mut padded = s;
    let ghost orig = padded@;
    while padded.as_str().unicode_len() < size
        invariant
            orig.len() <= padded@.len(),
            padded@.len() <= size || padded@ == orig,
            padded@.subrange(0, orig.len() as int) == orig,
            forall|i: int| orig.len() <= i < padded@.len() ==> padded@[i] == ' ',
        decreases size - padded@.len(),
    {
        padded.append(" ");
        proof {
            reveal_strlit(" ");
            assert(padded@.subrange(0, orig.len() as int) =~= orig);
        }
    }
    padded
}

/// The gibibyte text for a byte count: the whole number of gibibytes,
/// followed by one truncated decimal digit unless the count is an exact
/// number of gibibytes.
pub open spec fn format_gib_chars(bytes: u64) -> Seq<char> {
    if bytes % 0x4000_0000 == 0 {
        decimal_digits((bytes / 0x4000_0000) as nat)
    } else {
        decimal_digits((bytes / 0x4000_0000) as nat) + seq![
            '.',
            digit_char((bytes % 0x4000_0000) * 10 / 0x4000_0000),
        ]
    }
}

/// Format a byte count as gibibytes, truncated after one decimal digit.
pub fn format_gib(bytes: u64) -> (s: String)
    ensures
        s@ == format_gib_chars(bytes),
{
    proof {
        reveal_strlit(".");
    }
    let whole = bytes / 0x4000_0000;
    let rem = bytes % 0x4000_0000;
    let mut s = u64_decimal(whole);
    if rem != 0 {
        s.append(".");
        let tenth = rem * 10 / 0x4000_0000;
        let d = digit_str(tenth);
        s.append(d);
        proof {
            assert(s@ =~= format_gib_chars(bytes));
        }
    }
    s
}

} // verus!
