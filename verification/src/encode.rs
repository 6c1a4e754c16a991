//! Byte-level encodings used on the wire: lowercase hex for signatures and
//! percent-encoding for query-string keys and values.

use vstd::prelude::*;

verus! {

/// The lowercase hex digit for a value in `0..=15`.
pub open spec fn hex_digit(n: int) -> char {
    if n == 0 {
        '0'
    } else if n == 1 {
        '1'
    } else if n == 2 {
        '2'
    } else if n == 3 {
        '3'
    } else if n == 4 {
        '4'
    } else if n == 5 {
        '5'
    } else if n == 6 {
        '6'
    } else if n == 7 {
        '7'
    } else if n == 8 {
        '8'
    } else if n == 9 {
        '9'
    } else if n == 10 {
        'a'
    } else if n == 11 {
        'b'
    } else if n == 12 {
        'c'
    } else if n == 13 {
        'd'
    } else if n == 14 {
        'e'
    } else {
        'f'
    }
}

/// The uppercase hex digit for a value in `0..=15`, as percent-encoding
/// writes it.
pub open spec fn hex_digit_upper(n: int) -> char {
    if n < 10 {
        hex_digit(n)
    } else if n == 10 {
        'A'
    } else if n == 11 {
        'B'
    } else if n == 12 {
        'C'
    } else if n == 13 {
        'D'
    } else if n == 14 {
        'E'
    } else {
        'F'
    }
}

/// The lowercase hex string of a byte sequence: two digits per byte, in
/// order.
pub open spec fn hex_of_bytes(bs: Seq<u8>) -> Seq<char>
    decreases bs.len(),
{
    if bs.len() == 0 {
        Seq::empty()
    } else {
        hex_of_bytes(bs.drop_last()) + seq![
            hex_digit(bs.last() as int / 16),
            hex_digit(bs.last() as int % 16),
        ]
    }
}

fn hex_digit_exec(n: u8) -> (c: char)
    requires
        n <= 15,
    ensures
        c == hex_digit(n as int),
{
    if n == 0 {
        '0'
    } else if n == 1 {
        '1'
    } else if n == 2 {
        '2'
    } else if n == 3 {
        '3'
    } else if n == 4 {
        '4'
    } else if n == 5 {
        '5'
    } else if n == 6 {
        '6'
    } else if n == 7 {
        '7'
    } else if n == 8 {
        '8'
    } else if n == 9 {
        '9'
    } else if n == 10 {
        'a'
    } else if n == 11 {
        'b'
    } else if n == 12 {
        'c'
    } else if n == 13 {
        'd'
    } else if n == 14 {
        'e'
    } else {
        'f'
    }
}

fn hex_digit_upper_exec(n: u8) -> (c: char)
    requires
        n <= 15,
    ensures
        c == hex_digit_upper(n as int),
{
    if n < 10 {
        hex_digit_exec(n)
    } else if n == 10 {
        'A'
    } else if n == 11 {
        'B'
    } else if n == 12 {
        'C'
    } else if n == 13 {
        'D'
    } else if n == 14 {
        'E'
    } else {
        'F'
    }
}

/// Renders bytes as lowercase hex, two digits per byte.
pub fn hex_encode(bs: &Vec<u8>) -> (r: Vec<char>)
    ensures
        r@ == hex_of_bytes(bs@),
{
    let mut r: Vec<char> = Vec::new();
    let mut i: usize = 0;
    while i < bs.len()
        invariant
            i <= bs.len(),
            r@ == hex_of_bytes(bs@.subrange(0, i as int)),
        decreases bs.len() - i,
    {
        let b = bs[i];
        r.push(hex_digit_exec(b / 16));
        r.push(hex_digit_exec(b % 16));
        proof {
            let pre = bs@.subrange(0, i as int);
            let cur = bs@.subrange(0, i + 1 as int);
            assert(cur.drop_last() =~= pre);
            assert(cur.last() == bs@[i as int]);
            assert(r@ =~= hex_of_bytes(cur));
        }
        i = i + 1;
    }
    proof {
        assert(bs@.subrange(0, bs@.len() as int) =~= bs@);
    }
    r
}

/// Bytes that percent-encoding leaves as they are: ASCII letters, digits,
/// `-`, `.`, `_` and `~`.
pub open spec fn is_unreserved_byte(b: u8) -> bool {
    (65 <= b <= 90)  // 'A'..='Z'
     || (97 <= b <= 122)  // 'a'..='z'
     || (48 <= b <= 57)  // '0'..='9'
     || b == 45  // '-'
     || b == 46  // '.'
     || b == 95  // '_'
     || b == 126  // '~'

}

/// How one byte is written in a percent-encoded string.
pub open spec fn pct_byte(b: u8) -> Seq<char> {
    if is_unreserved_byte(b) {
        seq![b as char]
    } else {
        seq!['%', hex_digit_upper(b as int / 16), hex_digit_upper(b as int % 16)]
    }
}

/// The percent-encoding of a byte sequence.
pub open spec fn pct_encode_bytes(bs: Seq<u8>) -> Seq<char>
    decreases bs.len(),
{
    if bs.len() == 0 {
        Seq::empty()
    } else {
        pct_encode_bytes(bs.drop_last()) + pct_byte(bs.last())
    }
}

fn is_unreserved_byte_exec(b: u8) -> (r: bool)
    ensures
        r == is_unreserved_byte(b),
{
    (65 <= b && b <= 90) || (97 <= b && b <= 122) || (48 <= b && b <= 57) || b == 45 || b == 46
        || b == 95 || b == 126
}

/// Percent-encodes the UTF-8 bytes of a string.
pub fn pct_encode(s: &str) -> (r: Vec<char>)
    ensures
        r@ == pct_encode_bytes(vstd::utf8::encode_utf8(s@)),
{
    let bs = s.as_bytes_vec();
    let mut r: Vec<char> = Vec::new();
    let mut i: usize = 0;
    while i < bs.len()
        invariant
            i <= bs.len(),
            r@ == pct_encode_bytes(bs@.subrange(0, i as int)),
        decreases bs.len() - i,
    {
        let b = bs[i];
        if is_unreserved_byte_exec(b) {
            r.push(b as char);
        } else {
            r.push('%');
            r.push(hex_digit_upper_exec(b / 16));
            r.push(hex_digit_upper_exec(b % 16));
        }
        proof {
            let pre = bs@.subrange(0, i as int);
            let cur = bs@.subrange(0, i + 1 as int);
            assert(cur.drop_last() =~= pre);
            assert(cur.last() == bs@[i as int]);
            assert(r@ =~= pct_encode_bytes(cur));
        }
        i = i + 1;
    }
    proof {
        assert(bs@.subrange(0, bs@.len() as int) =~= bs@);
    }
    r
}

} // verus!
