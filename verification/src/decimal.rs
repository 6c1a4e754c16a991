//! Arbitrary-precision decimal quantities, held as a sign, an integer
//! mantissa and a power-of-ten scale, exactly as the wire format writes
//! them: `mantissa = 1, scale = 3` is `0.001`. Quantities and balances use
//! this type so that traded sizes never suffer binary floating-point
//! rounding. The mantissa is capped at 96 bits and the scale at 28, the
//! conventional range for exchange decimal payloads.

use crate::text::{
    dec_digits, digit_char_of, digit_val, is_digit_char, lemma_dec_digits_all_digits,
    lemma_digit_char_of_val, str_to_chars, u128_to_digits,
};
use vstd::arithmetic::div_mod::lemma_fundamental_div_mod;
use vstd::prelude::*;

verus! {

/// Largest mantissa a `Decimal` may carry: 2^96 - 1.
pub const MAX_MANTISSA: u128 = 79228162514264337593543950335;

/// Largest scale (number of fractional digits) a `Decimal` may carry.
pub const MAX_SCALE: u32 = 28;

/// A decimal number `(-1)^negative * mantissa / 10^scale`.
#[derive(Debug, Clone, Copy, PartialEq, Eq, Structural)]
pub struct Decimal {
    pub negative: bool,
    pub mantissa: u128,
    pub scale: u32,
}

impl Decimal {
    /// Well-formedness: the representation stays in the supported range.
    pub open spec fn wf(self) -> bool {
        self.mantissa <= MAX_MANTISSA && self.scale <= MAX_SCALE
    }

    /// Builds a decimal, refusing out-of-range representations.
    pub fn new(negative: bool, mantissa: u128, scale: u32) -> (r: Option<Decimal>)
        ensures
            mantissa <= MAX_MANTISSA && scale <= MAX_SCALE ==> r == Some(
                Decimal { negative, mantissa, scale },
            ),
            !(mantissa <= MAX_MANTISSA && scale <= MAX_SCALE) ==> r == None::<Decimal>,
            r matches Some(d) ==> d.wf(),
    {
        if mantissa <= MAX_MANTISSA && scale <= MAX_SCALE {
            Some(Decimal { negative, mantissa, scale })
        } else {
            None
        }
    }
}

/// 10 to the power `k`.
pub open spec fn pow10(k: nat) -> nat
    decreases k,
{
    if k == 0 {
        1
    } else {
        10 * pow10((k - 1) as nat)
    }
}

pub proof fn lemma_pow10_pos(k: nat)
    ensures
        pow10(k) >= 1,
    decreases k,
{
    if k > 0 {
        lemma_pow10_pos((k - 1) as nat);
    }
}

pub proof fn lemma_pow10_mono(j: nat, k: nat)
    requires
        j <= k,
    ensures
        pow10(j) <= pow10(k),
    decreases k,
{
    if j < k {
        lemma_pow10_mono(j, (k - 1) as nat);
        lemma_pow10_pos((k - 1) as nat);
    }
}

/// 10 to the power `k`, executable.
pub fn pow10_exec(k: u32) -> (r: u128)
    requires
        k <= MAX_SCALE,
    ensures
        r == pow10(k as nat),
    decreases k,
{
    if k == 0 {
        1
    } else {
        let p = pow10_exec(k - 1);
        proof {
            lemma_pow10_mono((k - 1) as nat, 27);
            reveal_with_fuel(pow10, 29);
            assert(pow10(27) == 1000000000000000000000000000);
        }
        10 * p
    }
}

/// `k` zero characters.
pub open spec fn zeros(k: nat) -> Seq<char> {
    Seq::new(k, |i: int| '0')
}

/// The numeric value of a digit string, most significant digit first.
pub open spec fn num_of_digits(s: Seq<char>) -> nat
    decreases s.len(),
{
    if s.len() == 0 {
        0
    } else {
        num_of_digits(s.drop_last()) * 10 + digit_val(s.last()) as nat
    }
}

/// Whether every character of `s` is a decimal digit.
pub open spec fn all_digits(s: Seq<char>) -> bool {
    forall|i: int| 0 <= i < s.len() ==> is_digit_char(#[trigger] s[i])
}

pub proof fn lemma_num_of_digits_concat(x: Seq<char>, y: Seq<char>)
    ensures
        num_of_digits(x + y) == num_of_digits(x) * pow10(y.len()) + num_of_digits(y),
    decreases y.len(),
{
    if y.len() == 0 {
        assert(x + y =~= x);
        assert(pow10(0) == 1);
        assert(num_of_digits(y) == 0);
        assert(num_of_digits(x) * 1 == num_of_digits(x));
    } else {
        lemma_num_of_digits_concat(x, y.drop_last());
        assert((x + y).drop_last() =~= x + y.drop_last());
        assert((x + y).last() == y.last());
        let a = num_of_digits(x);
        let p = pow10((y.len() - 1) as nat);
        let b = num_of_digits(y.drop_last());
        let d = digit_val(y.last()) as nat;
        assert(num_of_digits(x + y) == (a * p + b) * 10 + d);
        assert((a * p + b) * 10 + d == a * (p * 10) + (b * 10 + d)) by (nonlinear_arith);
        assert(pow10(y.len()) == 10 * p);
        assert(a * (p * 10) == a * pow10(y.len())) by (nonlinear_arith)
            requires
                p * 10 == pow10(y.len()),
        ;
        assert(num_of_digits(y) == b * 10 + d);
        assert(num_of_digits(x + y) == num_of_digits(x) * pow10(y.len()) + num_of_digits(y));
    }
}

pub proof fn lemma_num_of_dec_digits(n: nat)
    ensures
        num_of_digits(dec_digits(n)) == n,
    decreases n,
{
    if n < 10 {
        lemma_digit_char_of_val(n as int);
        assert(num_of_digits(Seq::<char>::empty()) == 0);
        assert(dec_digits(n).drop_last() =~= Seq::<char>::empty());
        assert(dec_digits(n).last() == digit_char_of(n as int));
    } else {
        lemma_num_of_dec_digits(n / 10);
        lemma_digit_char_of_val((n % 10) as int);
        let s = dec_digits(n);
        assert(s.drop_last() =~= dec_digits(n / 10));
        assert(s.last() == digit_char_of((n % 10) as int));
        assert(num_of_digits(s) == (n / 10) * 10 + n % 10);
        assert((n / 10) * 10 + n % 10 == n) by {
            lemma_fundamental_div_mod(n as int, 10);
        }
    }
}

pub proof fn lemma_num_of_zeros(k: nat)
    ensures
        num_of_digits(zeros(k)) == 0,
    decreases k,
{
    if k > 0 {
        assert(zeros(k).drop_last() =~= zeros((k - 1) as nat));
        lemma_num_of_zeros((k - 1) as nat);
        assert(zeros(k).last() == '0');
    }
}

/// A number below `10^k` has at most `k` digits (for `k >= 1`).
pub proof fn lemma_dec_digits_len(n: nat, k: nat)
    requires
        k >= 1,
        n < pow10(k),
    ensures
        dec_digits(n).len() <= k,
    decreases n,
{
    if n >= 10 {
        if k == 1 {
            assert(pow10(0) == 1);
            assert(pow10(1) == 10);
            assert(false);
        } else {
            assert(pow10(k) == 10 * pow10((k - 1) as nat));
            assert(n / 10 < pow10((k - 1) as nat));
            lemma_dec_digits_len(n / 10, (k - 1) as nat);
        }
    }
}

/// The index of the first occurrence of `c` in `s`, or -1 if absent.
pub open spec fn first_index_of(s: Seq<char>, c: char) -> int
    decreases s.len(),
{
    if s.len() == 0 {
        -1
    } else if s[0] == c {
        0
    } else if first_index_of(s.drop_first(), c) < 0 {
        -1
    } else {
        1 + first_index_of(s.drop_first(), c)
    }
}

pub proof fn lemma_first_index_of(s: Seq<char>, c: char)
    ensures
        first_index_of(s, c) == -1 || (0 <= first_index_of(s, c) < s.len()),
        first_index_of(s, c) == -1 ==> (forall|i: int| 0 <= i < s.len() ==> s[i] != c),
        first_index_of(s, c) >= 0 ==> s[first_index_of(s, c)] == c,
        first_index_of(s, c) >= 0 ==> (forall|i: int| 0 <= i < first_index_of(s, c) ==> s[i] != c),
    decreases s.len(),
{
    if s.len() != 0 && s[0] != c {
        lemma_first_index_of(s.drop_first(), c);
        let r = first_index_of(s.drop_first(), c);
        if r == -1 {
            assert forall|i: int| 0 <= i < s.len() implies s[i] != c by {
                if i > 0 {
                    assert(s[i] == s.drop_first()[i - 1]);
                }
            }
        } else {
            assert(s[1 + r] == s.drop_first()[r]);
            assert forall|i: int| 0 <= i < 1 + r implies s[i] != c by {
                if i > 0 {
                    assert(s[i] == s.drop_first()[i - 1]);
                }
            }
        }
    }
}

pub proof fn lemma_first_index_of_at(s: Seq<char>, c: char, k: int)
    requires
        0 <= k < s.len(),
        s[k] == c,
        forall|i: int| 0 <= i < k ==> s[i] != c,
    ensures
        first_index_of(s, c) == k,
    decreases s.len(),
{
    if k > 0 {
        assert forall|i: int| 0 <= i < k - 1 implies s.drop_first()[i] != c by {
            assert(s.drop_first()[i] == s[i + 1]);
        }
        assert(s.drop_first()[k - 1] == s[k]);
        lemma_first_index_of_at(s.drop_first(), c, k - 1);
    }
}

/// The decimal digit string of an unsigned decimal: integer digits, then,
/// for a non-zero scale, a point and exactly `scale` fractional digits.
pub open spec fn spec_fmt_udec(m: nat, scale: nat) -> Seq<char> {
    if scale == 0 {
        dec_digits(m)
    } else {
        let p = pow10(scale);
        dec_digits(m / p) + seq!['.'] + zeros((scale - dec_digits(m % p).len()) as nat)
            + dec_digits(m % p)
    }
}

/// The canonical character string of a decimal.
pub open spec fn spec_fmt_dec(d: Decimal) -> Seq<char> {
    if d.negative {
        seq!['-'] + spec_fmt_udec(d.mantissa as nat, d.scale as nat)
    } else {
        spec_fmt_udec(d.mantissa as nat, d.scale as nat)
    }
}

/// Renders a decimal as its canonical character string.
pub fn fmt_dec(d: &Decimal) -> (r: Vec<char>)
    requires
        d.wf(),
    ensures
        r@ == spec_fmt_dec(*d),
{
    let mut r: Vec<char> = Vec::new();
    if d.negative {
        r.push('-');
    }
    if d.scale == 0 {
        let mut ds = u128_to_digits(d.mantissa);
        r.append(&mut ds);
        proof {
            assert(r@ =~= spec_fmt_dec(*d));
        }
    } else {
        let p = pow10_exec(d.scale);
        proof {
            lemma_pow10_pos(d.scale as nat);
        }
        let ip = d.mantissa / p;
        let fp = d.mantissa % p;
        let mut ids = u128_to_digits(ip);
        r.append(&mut ids);
        r.push('.');
        let fds = u128_to_digits(fp);
        proof {
            lemma_dec_digits_len(fp as nat, d.scale as nat);
        }
        let mut pad = d.scale as usize - fds.len();
        let ghost padn = pad as nat;
        while pad > 0
            invariant
                r@ == (if d.negative {
                    seq!['-']
                } else {
                    Seq::<char>::empty()
                }) + dec_digits((d.mantissa / p) as nat) + seq!['.'] + zeros((padn - pad) as nat),
                pad <= padn,
            decreases pad,
        {
            r.push('0');
            pad = pad - 1;
            proof {
                assert(zeros((padn - pad) as nat) =~= zeros((padn - pad - 1) as nat).push('0'));
            }
        }
        let mut fds = fds;
        r.append(&mut fds);
        proof {
            assert(r@ =~= spec_fmt_dec(*d));
        }
    }
    r
}

/// What parsing an unsigned decimal string yields: digits, optionally a
/// point followed by one or more fractional digits, within range.
pub open spec fn spec_parse_udec(t: Seq<char>) -> Option<Decimal> {
    let di = first_index_of(t, '.');
    if di < 0 {
        if t.len() > 0 && all_digits(t) && num_of_digits(t) <= MAX_MANTISSA {
            Some(Decimal { negative: false, mantissa: num_of_digits(t) as u128, scale: 0 })
        } else {
            None
        }
    } else {
        let ip = t.subrange(0, di);
        let fp = t.subrange(di + 1, t.len() as int);
        if ip.len() > 0 && fp.len() > 0 && all_digits(ip) && all_digits(fp) && fp.len() <= MAX_SCALE
            && num_of_digits(ip + fp) <= MAX_MANTISSA {
            Some(
                Decimal {
                    negative: false,
                    mantissa: num_of_digits(ip + fp) as u128,
                    scale: fp.len() as u32,
                },
            )
        } else {
            None
        }
    }
}

/// What parsing a decimal string yields: an optional leading minus sign,
/// then an unsigned decimal.
pub open spec fn spec_parse_dec(s: Seq<char>) -> Option<Decimal> {
    if s.len() > 0 && s[0] == '-' {
        match spec_parse_udec(s.drop_first()) {
            Some(d) => Some(Decimal { negative: true, ..d }),
            None => None,
        }
    } else {
        spec_parse_udec(s)
    }
}

fn digit_val_exec(c: char) -> (r: u32)
    ensures
        r == digit_val(c),
{
    if c == '0' {
        0
    } else if c == '1' {
        1
    } else if c == '2' {
        2
    } else if c == '3' {
        3
    } else if c == '4' {
        4
    } else if c == '5' {
        5
    } else if c == '6' {
        6
    } else if c == '7' {
        7
    } else if c == '8' {
        8
    } else if c == '9' {
        9
    } else {
        10
    }
}

fn find_dot(v: &Vec<char>, off: usize) -> (r: Option<usize>)
    requires
        off <= v.len(),
    ensures
        match r {
            Some(k) => off <= k < v.len() && v@[k as int] == '.' && (forall|i: int|
                off <= i < k ==> v@[i] != '.'),
            None => forall|i: int| off <= i < v.len() ==> v@[i] != '.',
        },
{
    let mut j = off;
    while j < v.len()
        invariant
            off <= j <= v.len(),
            forall|i: int| off <= i < j ==> v@[i] != '.',
        decreases v.len() - j,
    {
        if v[j] == '.' {
            return Some(j);
        }
        j = j + 1;
    }
    None
}

fn all_digits_range(v: &Vec<char>, from: usize, to: usize) -> (r: bool)
    requires
        from <= to <= v.len(),
    ensures
        r == all_digits(v@.subrange(from as int, to as int)),
{
    let ghost t = v@.subrange(from as int, to as int);
    let mut j = from;
    while j < to
        invariant
            from <= j <= to <= v.len(),
            t == v@.subrange(from as int, to as int),
            forall|i: int| 0 <= i < j - from ==> is_digit_char(#[trigger] t[i]),
        decreases to - j,
    {
        if digit_val_exec(v[j]) > 9 {
            proof {
                assert(t[j - from] == v@[j as int]);
            }
            return false;
        }
        proof {
            assert(t[j - from] == v@[j as int]);
        }
        j = j + 1;
    }
    true
}

/// Accumulates the digits `v[from..to]` onto the value of the digits already
/// seen; yields nothing if the total exceeds `MAX_MANTISSA`.
fn num_append(v: &Vec<char>, from: usize, to: usize, acc: u128, Ghost(pre): Ghost<Seq<char>>) -> (r:
    Option<u128>)
    requires
        from <= to <= v.len(),
        acc == num_of_digits(pre),
        acc <= MAX_MANTISSA,
        all_digits(v@.subrange(from as int, to as int)),
    ensures
        ({
            let full = pre + v@.subrange(from as int, to as int);
            match r {
                Some(m) => m == num_of_digits(full) && m <= MAX_MANTISSA,
                None => num_of_digits(full) > MAX_MANTISSA,
            }
        }),
{
    let ghost whole = v@.subrange(from as int, to as int);
    let mut acc = acc;
    let mut j = from;
    while j < to
        invariant
            from <= j <= to <= v.len(),
            whole == v@.subrange(from as int, to as int),
            all_digits(whole),
            acc == num_of_digits(pre + v@.subrange(from as int, j as int)),
            acc <= MAX_MANTISSA,
        decreases to - j,
    {
        let ghost sofar = pre + v@.subrange(from as int, j as int);
        let d = digit_val_exec(v[j]);
        proof {
            assert(v@[j as int] == whole[j - from]);
            assert(is_digit_char(whole[j - from]));
        }
        let next = acc * 10 + (d as u128);
        proof {
            let step = pre + v@.subrange(from as int, j + 1 as int);
            assert(step.drop_last() =~= sofar);
            assert(step.last() == v@[j as int]);
        }
        if next > MAX_MANTISSA {
            proof {
                let step = pre + v@.subrange(from as int, j + 1 as int);
                let rest = v@.subrange(j + 1 as int, to as int);
                let full = pre + whole;
                assert(full =~= step + rest);
                lemma_num_of_digits_concat(step, rest);
                lemma_pow10_pos(rest.len());
                assert(num_of_digits(step) * pow10(rest.len()) >= num_of_digits(step) * 1)
                    by (nonlinear_arith)
                    requires
                        pow10(rest.len()) >= 1,
                ;
            }
            return None;
        }
        acc = next;
        j = j + 1;
    }
    proof {
        assert(pre + v@.subrange(from as int, j as int) =~= pre + whole);
    }
    Some(acc)
}

fn parse_udec_from(v: &Vec<char>, off: usize) -> (r: Option<Decimal>)
    requires
        off <= v.len(),
    ensures
        r == spec_parse_udec(v@.skip(off as int)),
        r matches Some(d) ==> d.wf() && !d.negative,
{
    let ghost t = v@.skip(off as int);
    let n = v.len();
    match find_dot(v, off) {
        None => {
            proof {
                lemma_first_index_of(t, '.');
                if first_index_of(t, '.') >= 0 {
                    assert(t[first_index_of(t, '.')] == v@[first_index_of(t, '.') + off]);
                    assert(false);
                }
                assert(t =~= v@.subrange(off as int, n as int));
            }
            if off == n {
                return None;
            }
            if !all_digits_range(v, off, n) {
                return None;
            }
            match num_append(v, off, n, 0, Ghost(Seq::empty())) {
                Some(m) => {
                    proof {
                        assert(Seq::empty() + t =~= t);
                    }
                    Some(Decimal { negative: false, mantissa: m, scale: 0 })
                },
                None => {
                    proof {
                        assert(Seq::empty() + t =~= t);
                    }
                    None
                },
            }
        },
        Some(k) => {
            proof {
                assert(t[k - off] == v@[k as int]);
                assert forall|i: int| 0 <= i < k - off implies t[i] != '.' by {
                    assert(t[i] == v@[i + off]);
                }
                lemma_first_index_of_at(t, '.', k - off);
            }
            let ghost di = k - off;
            let ghost ip = t.subrange(0, di);
            let ghost fp = t.subrange(di + 1, t.len() as int);
            proof {
                assert(ip =~= v@.subrange(off as int, k as int));
                assert(fp =~= v@.subrange(k + 1 as int, n as int));
            }
            if k == off {
                return None;
            }
            if k + 1 == n {
                return None;
            }
            if n - (k + 1) > MAX_SCALE as usize {
                return None;
            }
            if !all_digits_range(v, off, k) {
                return None;
            }
            if !all_digits_range(v, k + 1, n) {
                return None;
            }
            let first = match num_append(v, off, k, 0, Ghost(Seq::empty())) {
                Some(m) => m,
                None => {
                    proof {
                        let full = Seq::empty() + ip;
                        assert(full =~= ip);
                        lemma_num_of_digits_concat(ip, fp);
                        lemma_pow10_pos(fp.len());
                        assert(num_of_digits(ip) * pow10(fp.len()) >= num_of_digits(ip) * 1)
                            by (nonlinear_arith)
                            requires
                                pow10(fp.len()) >= 1,
                        ;
                    }
                    return None;
                },
            };
            proof {
                assert(Seq::empty() + ip =~= ip);
            }
            match num_append(v, k + 1, n, first, Ghost(ip)) {
                Some(m) => Some(
                    Decimal { negative: false, mantissa: m, scale: (n - (k + 1)) as u32 },
                ),
                None => None,
            }
        },
    }
}

/// Parses a decimal from characters: an optional minus sign, integer
/// digits, and optionally a point followed by fractional digits.
pub fn parse_decimal_chars(v: &Vec<char>) -> (r: Option<Decimal>)
    ensures
        r == spec_parse_dec(v@),
        r matches Some(d) ==> d.wf(),
{
    if v.len() > 0 && v[0] == '-' {
        proof {
            assert(v@.drop_first() =~= v@.skip(1));
        }
        match parse_udec_from(v, 1) {
            Some(d) => Some(Decimal { negative: true, mantissa: d.mantissa, scale: d.scale }),
            None => None,
        }
    } else {
        proof {
            assert(v@.skip(0) =~= v@);
        }
        parse_udec_from(v, 0)
    }
}

/// Parses a decimal from a string slice.
pub fn parse_decimal(s: &str) -> (r: Option<Decimal>)
    ensures
        r == spec_parse_dec(s@),
        r matches Some(d) ==> d.wf(),
{
    let v = str_to_chars(s);
    parse_decimal_chars(&v)
}

/// Rendering and re-parsing a well-formed decimal gives back exactly the
/// same representation: the wire format never loses precision on
/// quantities, whatever their sign, mantissa and scale.
pub proof fn lemma_decimal_round_trip(d: Decimal)
    requires
        d.wf(),
    ensures
        spec_parse_dec(spec_fmt_dec(d)) == Some(d),
{
    let m = d.mantissa as nat;
    let scale = d.scale as nat;
    let u = spec_fmt_udec(m, scale);
    lemma_parse_fmt_udec(m, scale);
    lemma_fmt_udec_first_digit(m, scale);
    assert(is_digit_char('-') == false);
    if d.negative {
        let s = seq!['-'] + u;
        assert(s[0] == '-');
        assert(s.len() > 0);
        assert(s.drop_first() =~= u);
        assert(spec_parse_udec(u) == Some(Decimal { negative: false, mantissa: d.mantissa, scale: d.scale }));
        assert(spec_parse_dec(s) == Some(d));
    } else {
        assert(u[0] != '-');
        assert(spec_parse_dec(u) == Some(d));
    }
}

proof fn lemma_fmt_udec_first_digit(m: nat, scale: nat)
    ensures
        spec_fmt_udec(m, scale).len() > 0,
        is_digit_char(spec_fmt_udec(m, scale)[0]),
{
    if scale == 0 {
        lemma_dec_digits_all_digits(m);
    } else {
        let p = pow10(scale);
        lemma_pow10_pos(scale);
        lemma_dec_digits_all_digits((m / p) as nat);
        assert(spec_fmt_udec(m, scale)[0] == dec_digits((m / p) as nat)[0]);
    }
}

proof fn lemma_parse_fmt_udec(m: nat, scale: nat)
    requires
        m <= MAX_MANTISSA,
        scale <= MAX_SCALE,
    ensures
        spec_parse_udec(spec_fmt_udec(m, scale)) == Some(
            Decimal { negative: false, mantissa: m as u128, scale: scale as u32 },
        ),
{
    assert(is_digit_char('.') == false);
    if scale == 0 {
        let u = dec_digits(m);
        lemma_dec_digits_all_digits(m);
        lemma_first_index_of(u, '.');
        if first_index_of(u, '.') >= 0 {
            assert(is_digit_char(u[first_index_of(u, '.')]));
            assert(false);
        }
        lemma_num_of_dec_digits(m);
    } else {
        let p = pow10(scale);
        lemma_pow10_pos(scale);
        lemma_fundamental_div_mod(m as int, p as int);
        let mi = (m / p) as nat;
        let mf = (m % p) as nat;
        let a = dec_digits(mi);
        let b = dec_digits(mf);
        lemma_dec_digits_all_digits(mi);
        lemma_dec_digits_all_digits(mf);
        lemma_dec_digits_len(mf, scale);
        let pad = (scale - b.len()) as nat;
        let z = zeros(pad);
        let u = a + seq!['.'] + z + b;
        assert(spec_fmt_udec(m, scale) == u);
        // the first dot is right after the integer digits
        let di = a.len() as int;
        assert(u[di] == '.');
        assert forall|i: int| 0 <= i < di implies u[i] != '.' by {
            assert(u[i] == a[i]);
            assert(is_digit_char(a[i]));
        }
        lemma_first_index_of_at(u, '.', di);
        let ip = u.subrange(0, di);
        let fp = u.subrange(di + 1, u.len() as int);
        assert(ip =~= a);
        assert(fp =~= z + b);
        assert(fp.len() == scale);
        assert forall|i: int| 0 <= i < fp.len() implies is_digit_char(#[trigger] fp[i]) by {
            if i < pad {
                assert(fp[i] == '0');
            } else {
                assert(fp[i] == b[i - pad]);
            }
        }
        // the digits read back to the mantissa
        lemma_num_of_digits_concat(ip, fp);
        lemma_num_of_digits_concat(z, b);
        lemma_num_of_zeros(pad);
        lemma_num_of_dec_digits(mi);
        lemma_num_of_dec_digits(mf);
        assert(num_of_digits(fp) == num_of_digits(z + b));
        assert(num_of_digits(z + b) == 0 * pow10(b.len()) + mf);
        assert(num_of_digits(ip + fp) == mi * pow10(scale) + mf);
        assert(mi * pow10(scale) + mf == m) by (nonlinear_arith)
            requires
                m == p * (m as int / p as int) + m as int % p as int,
                p == pow10(scale),
                mi == m / p,
                mf == m % p,
        ;
    }
}

/// The decimal an `i32` denotes.
pub open spec fn spec_dec_of_i32(p: i32) -> Decimal {
    Decimal {
        negative: p < 0,
        mantissa: (if p < 0 {
            -(p as int)
        } else {
            p as int
        }) as u128,
        scale: 0,
    }
}

/// Converts an `i32` to the decimal it denotes.
pub fn dec_of_i32(p: i32) -> (r: Decimal)
    ensures
        r == spec_dec_of_i32(p),
        r.wf(),
{
    if p >= 0 {
        Decimal { negative: false, mantissa: p as u128, scale: 0 }
    } else {
        let m = -(p as i64);
        Decimal { negative: true, mantissa: m as u128, scale: 0 }
    }
}

} // verus!
