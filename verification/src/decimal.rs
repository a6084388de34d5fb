//! Decimal digits and padding of numbers, as `format!` writes them.
use vstd::prelude::*;

verus! {

/// The character of a decimal digit.
pub open spec fn digit_char(d: nat) -> char {
    if d == 0 {
        '0'
    } else if d == 1 {
        '1'
    } else if d == 2 {
        '2'
    } else if d == 3 {
        '3'
    } else if d == 4 {
        '4'
    } else if d == 5 {
        '5'
    } else if d == 6 {
        '6'
    } else if d == 7 {
        '7'
    } else if d == 8 {
        '8'
    } else {
        '9'
    }
}

/// The decimal representation of a number, without leading zeros.
pub open spec fn spec_decimal(n: nat) -> Seq<char>
    decreases n,
{
    if n < 10 {
        seq![digit_char(n)]
    } else {
        spec_decimal(n / 10).push(digit_char(n % 10))
    }
}

/// The character of a hexadecimal digit, lowercase.
pub open spec fn hex_digit_char(d: nat) -> char {
    if d < 10 {
        digit_char(d)
    } else if d == 10 {
        'a'
    } else if d == 11 {
        'b'
    } else if d == 12 {
        'c'
    } else if d == 13 {
        'd'
    } else if d == 14 {
        'e'
    } else {
        'f'
    }
}

/// The lowercase hexadecimal representation of a number, without leading
/// zeros, as `{:x}` writes it.
pub open spec fn spec_hex(n: nat) -> Seq<char>
    decreases n,
{
    if n < 16 {
        seq![hex_digit_char(n)]
    } else {
        spec_hex(n / 16).push(hex_digit_char(n % 16))
    }
}

/// `n` spaces.
pub open spec fn spaces(n: nat) -> Seq<char> {
    Seq::new(n, |i: int| ' ')
}

/// `s` right-aligned in a field of `width` characters, as `{:>width}` does.
pub open spec fn pad_left(s: Seq<char>, width: nat) -> Seq<char> {
    if s.len() < width {
        spaces((width - s.len()) as nat) + s
    } else {
        s
    }
}

/// `s` left-aligned in a field of `width` characters, as `{:width}` does
/// for text.
pub open spec fn pad_right(s: Seq<char>, width: nat) -> Seq<char> {
    if s.len() < width {
        s + spaces((width - s.len()) as nat)
    } else {
        s
    }
}

pub(crate) fn digit_str(d: usize) -> (s: &'static str)
    requires
        d < 10,
    ensures
        s@ == seq![digit_char(d as nat)],
{
    proof {
        reveal_strlit("0");
        reveal_strlit("1");
        reveal_strlit("2");
        reveal_strlit("3");
        reveal_strlit("4");
        reveal_strlit("5");
        reveal_strlit("6");
        reveal_strlit("7");
        reveal_strlit("8");
        reveal_strlit("9");
    }
    match d {
        0 => "0",
        1 => "1",
        2 => "2",
        3 => "3",
        4 => "4",
        5 => "5",
        6 => "6",
        7 => "7",
        8 => "8",
        _ => "9",
    }
}

/// Writes a number in decimal, as `to_string` does.
pub fn decimal(n: usize) -> (s: String)
    ensures
        s@ == spec_decimal(n as nat),
    decreases n,
{
    if n < 10 {
        String::from_str(digit_str(n))
    } else {
        let mut s = decimal(n / 10);
        s.append(digit_str(n % 10));
        s
    }
}

/// Right-aligns `s` in a field of `width` characters.
pub fn pad_left_str(s: &str, width: usize) -> (padded: String)
    ensures
        padded@ == pad_left(s@, width as nat),
{
    let n = s.unicode_len();
    let mut out = String::new();
    let mut i = n;
    proof {
        reveal_strlit(" ");
    }
    while i < width
        invariant
            n == s@.len(),
            n <= i <= width || (i == n && n >= width),
            out@ == spaces((i - n) as nat),
        decreases width - i,
    {
        proof {
            reveal_strlit(" ");
        }
        out.append(" ");
        proof {
            assert(spaces((i + 1 - n) as nat) =~= spaces((i - n) as nat) + seq![' ']);
        }
        i += 1;
    }
    out.append(s);
    proof {
        if n >= width {
            assert(out@ =~= s@);
        }
    }
    out
}

/// Left-aligns `s` in a field of `width` characters.
pub fn pad_right_str(s: &str, width: usize) -> (padded: String)
    ensures
        padded@ == pad_right(s@, width as nat),
{
    let n = s.unicode_len();
    let mut out = String::from_str(s);
    let mut i = n;
    while i < width
        invariant
            n == s@.len(),
            n <= i <= width || (i == n && n >= width),
            out@ == s@ + spaces((i - n) as nat),
        decreases width - i,
    {
        proof {
            reveal_strlit(" ");
        }
        out.append(" ");
        proof {
            assert(s@ + spaces((i + 1 - n) as nat) =~= s@ + spaces((i - n) as nat) + seq![' ']);
        }
        i += 1;
    }
    proof {
        if n >= width {
            assert(out@ =~= s@);
        }
    }
    out
}

fn hex_digit_str(d: u32) -> (s: &'static str)
    requires
        d < 16,
    ensures
        s@ == seq![hex_digit_char(d as nat)],
{
    if d < 10 {
        digit_str(d as usize)
    } else {
        proof {
            reveal_strlit("a");
            reveal_strlit("b");
            reveal_strlit("c");
            reveal_strlit("d");
            reveal_strlit("e");
            reveal_strlit("f");
        }
        match d {
            10 => "a",
            11 => "b",
            12 => "c",
            13 => "d",
            14 => "e",
            _ => "f",
        }
    }
}

/// Writes a number in lowercase hexadecimal, as `{:x}` does.
pub fn hex(n: u32) -> (s: String)
    ensures
        s@ == spec_hex(n as nat),
    decreases n,
{
    if n < 16 {
        String::from_str(hex_digit_str(n))
    } else {
        let mut s = hex(n / 16);
        s.append(hex_digit_str(n % 16));
        s
    }
}

} // verus!
