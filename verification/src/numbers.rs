//! Integers read from and written as text, with the semantics of the standard
//! library's `str::parse`, `from_str_radix` and the `{}`, `{:04x}` and `{:02X}`
//! formats.
use vstd::prelude::*;
use crate::text::subvec;

verus! {

// ───────────────────────────── digits ─────────────────────────────

/// The value that `char::to_digit` reads in `c` under any radix up to 36
/// (`'0'..'9'`, then letters of either case from 10), or 99 for other characters.
pub open spec fn digit_of(c: char) -> nat {
    let u = c as u32;
    if 48 <= u <= 57 {
        (u - 48) as nat
    } else if 97 <= u <= 122 {
        (u - 97 + 10) as nat
    } else if 65 <= u <= 90 {
        (u - 65 + 10) as nat
    } else {
        99
    }
}

/// Whether `c` is a digit in base `radix`.
pub open spec fn is_digit_in(c: char, radix: nat) -> bool {
    digit_of(c) < radix
}

/// Whether every character of `s` is a digit in base `radix`.
pub open spec fn all_digits_in(s: Seq<char>, radix: nat) -> bool {
    forall|i: int| 0 <= i < s.len() ==> is_digit_in(#[trigger] s[i], radix)
}

/// The number that the digits `s` write in base `radix`.
pub open spec fn value_in(s: Seq<char>, radix: nat) -> nat
    decreases s.len(),
{
    if s.len() == 0 {
        0
    } else {
        value_in(s.drop_last(), radix) * radix + digit_of(s.last())
    }
}

/// `s` without one leading `'+'`.
pub open spec fn unsigned_digits(s: Seq<char>) -> Seq<char> {
    if s.len() > 0 && s[0] == '+' {
        s.drop_first()
    } else {
        s
    }
}

/// What parsing `s` as an unsigned integer of base `radix` and at most `max`
/// gives: an optional `'+'`, then at least one digit, and a value in range.
pub open spec fn parse_unsigned(s: Seq<char>, radix: nat, max: nat) -> Option<nat> {
    let d = unsigned_digits(s);
    if d.len() > 0 && all_digits_in(d, radix) && value_in(d, radix) <= max {
        Some(value_in(d, radix))
    } else {
        None
    }
}

/// `s.parse::<u64>().ok()`.
pub open spec fn u64_of(s: Seq<char>) -> Option<u64> {
    match parse_unsigned(s, 10, u64::MAX as nat) {
        Some(n) => Some(n as u64),
        None => None,
    }
}

/// `s.parse::<u32>().ok()`.
pub open spec fn u32_of(s: Seq<char>) -> Option<u32> {
    match parse_unsigned(s, 10, u32::MAX as nat) {
        Some(n) => Some(n as u32),
        None => None,
    }
}

/// `u32::from_str_radix(s, 16).ok()`.
pub open spec fn hex_u32_of(s: Seq<char>) -> Option<u32> {
    match parse_unsigned(s, 16, u32::MAX as nat) {
        Some(n) => Some(n as u32),
        None => None,
    }
}

/// `s.parse::<i64>().ok()`: an optional sign, then at least one decimal digit.
pub open spec fn i64_of(s: Seq<char>) -> Option<i64> {
    if s.len() > 0 && s[0] == '-' {
        let d = s.drop_first();
        if d.len() > 0 && all_digits_in(d, 10) && value_in(d, 10) <= 0x8000_0000_0000_0000 {
            Some((0 - value_in(d, 10)) as i64)
        } else {
            None
        }
    } else {
        match parse_unsigned(s, 10, i64::MAX as nat) {
            Some(n) => Some(n as i64),
            None => None,
        }
    }
}

proof fn lemma_value_step(s: Seq<char>, i: int, radix: nat)
    requires
        0 <= i < s.len(),
    ensures
        value_in(s.take(i + 1), radix) == value_in(s.take(i), radix) * radix + digit_of(s[i]),
{
    assert(s.take(i + 1).drop_last() =~= s.take(i));
}

/// The digits of `v` from `lo` on, read in base `radix` with `max` as the largest
/// value accepted.
fn read_digits(v: &Vec<char>, lo: usize, radix: u64, max: u64) -> (r: Option<u64>)
    requires
        lo <= v.len(),
        2 <= radix <= 36,
        max >= 36,
    ensures
        ({
            let d = v@.skip(lo as int);
            let ok = d.len() > 0 && all_digits_in(d, radix as nat) && value_in(d, radix as nat)
                <= max;
            &&& r is Some <==> ok
            &&& r matches Some(x) ==> x == value_in(d, radix as nat)
        }),
{
    let ghost d = v@.skip(lo as int);
    let mut acc: u64 = 0;
    let mut over = false;
    let mut i: usize = lo;
    assert(d.take(0) =~= Seq::<char>::empty());
    while i < v.len()
        invariant
            lo <= i <= v.len(),
            d == v@.skip(lo as int),
            2 <= radix <= 36,
            max >= 36,
            all_digits_in(d.take(i - lo), radix as nat),
            !over ==> acc == value_in(d.take(i - lo), radix as nat) && acc <= max,
            over ==> value_in(d.take(i - lo), radix as nat) > max,
        decreases v.len() - i,
    {
        let c = v[i];
        let u = c as u32;
        let dig: u64 = if 48 <= u && u <= 57 {
            (u - 48) as u64
        } else if 97 <= u && u <= 122 {
            (u - 97 + 10) as u64
        } else if 65 <= u && u <= 90 {
            (u - 65 + 10) as u64
        } else {
            99
        };
        assert(dig == digit_of(c));
        assert(c == d[i - lo]);
        if dig >= radix {
            assert(!is_digit_in(d[i - lo], radix as nat));
            return None;
        }
        proof {
            lemma_value_step(d, i - lo, radix as nat);
            assert(all_digits_in(d.take(i - lo + 1), radix as nat)) by {
                assert forall|k: int| 0 <= k < i - lo + 1 implies is_digit_in(
                    #[trigger] d.take(i - lo + 1)[k],
                    radix as nat,
                ) by {
                    if k < i - lo {
                        assert(d.take(i - lo + 1)[k] == d.take(i - lo)[k]);
                    }
                }
            }
        }
        let ghost prev = value_in(d.take(i - lo), radix as nat);
        if !over {
            let q = (max - dig) / radix;
            let ghost rest: int = max - dig;
            if acc <= q {
                assert(acc * radix + dig <= max) by (nonlinear_arith)
                    requires
                        acc <= q,
                        q == rest / (radix as int),
                        rest == max - dig,
                        radix >= 2,
                        dig <= max,
                ;
                acc = acc * radix + dig;
            } else {
                assert(acc * radix + dig > max) by (nonlinear_arith)
                    requires
                        acc > q,
                        q == rest / (radix as int),
                        rest == max - dig,
                        radix >= 2,
                ;
                over = true;
            }
        } else {
            assert(prev * radix + dig >= prev) by (nonlinear_arith)
                requires
                    radix >= 2,
            ;
        }
        i += 1;
    }
    assert(d.take(i - lo) =~= d);
    if i == lo || over {
        None
    } else {
        Some(acc)
    }
}

fn parse_unsigned_exec(v: &Vec<char>, radix: u64, max: u64) -> (r: Option<u64>)
    requires
        2 <= radix <= 36,
        max >= 36,
    ensures
        r matches Some(x) ==> parse_unsigned(v@, radix as nat, max as nat) == Some(x as nat),
        r is None ==> parse_unsigned(v@, radix as nat, max as nat) is None,
{
    if v.len() > 0 && v[0] == '+' {
        assert(v@.skip(1) =~= v@.drop_first());
        read_digits(v, 1, radix, max)
    } else {
        assert(v@.skip(0) =~= v@);
        read_digits(v, 0, radix, max)
    }
}

/// `s.parse::<u64>().ok()`.
pub fn parse_u64(v: &Vec<char>) -> (r: Option<u64>)
    ensures
        r == u64_of(v@),
{
    parse_unsigned_exec(v, 10, u64::MAX)
}

/// `s.parse::<u32>().ok()`.
pub fn parse_u32(v: &Vec<char>) -> (r: Option<u32>)
    ensures
        r == u32_of(v@),
{
    match parse_unsigned_exec(v, 10, u32::MAX as u64) {
        Some(x) => Some(x as u32),
        None => None,
    }
}

/// `u32::from_str_radix(s, 16).ok()`.
pub fn parse_hex_u32(v: &Vec<char>) -> (r: Option<u32>)
    ensures
        r == hex_u32_of(v@),
{
    match parse_unsigned_exec(v, 16, u32::MAX as u64) {
        Some(x) => Some(x as u32),
        None => None,
    }
}

/// `s.parse::<i64>().ok()`.
pub fn parse_i64(v: &Vec<char>) -> (r: Option<i64>)
    ensures
        r == i64_of(v@),
{
    if v.len() > 0 && v[0] == '-' {
        assert(v@.skip(1) =~= v@.drop_first());
        match read_digits(v, 1, 10, 0x8000_0000_0000_0000) {
            Some(x) => {
                if x == 0x8000_0000_0000_0000 {
                    Some(i64::MIN)
                } else {
                    Some(-(x as i64))
                }
            },
            None => None,
        }
    } else {
        match parse_unsigned_exec(v, 10, i64::MAX as u64) {
            Some(x) => Some(x as i64),
            None => None,
        }
    }
}

/// `s` with every leading `"0x"` removed, as `trim_start_matches("0x")` does.
pub open spec fn strip_hex_prefixes(s: Seq<char>) -> Seq<char>
    decreases s.len(),
{
    if s.len() >= 2 && s[0] == '0' && s[1] == 'x' {
        strip_hex_prefixes(s.skip(2))
    } else {
        s
    }
}

/// `v` with every leading `"0x"` removed.
pub fn trim_hex_prefixes(v: &Vec<char>) -> (r: Vec<char>)
    ensures
        r@ == strip_hex_prefixes(v@),
{
    let mut i: usize = 0;
    assert(v@.skip(0) =~= v@);
    while i < v.len() && v.len() - i >= 2 && v[i] == '0' && v[i + 1] == 'x'
        invariant
            i <= v.len(),
            strip_hex_prefixes(v@.skip(i as int)) == strip_hex_prefixes(v@),
        decreases v.len() - i,
    {
        assert(v@.skip(i as int).skip(2) =~= v@.skip(i + 2));
        i += 2;
    }
    subvec(v, i, v.len())
}

// ───────────────────────────── writing numbers ─────────────────────────────

/// The character of the digit `d` (below 36): `'0'..'9'`, then `'a'` or `'A'` on.
pub open spec fn digit_char(d: nat, upper: bool) -> char {
    if d < 10 {
        ((d + 48) as u8) as char
    } else if upper {
        ((d - 10 + 65) as u8) as char
    } else {
        ((d - 10 + 97) as u8) as char
    }
}

/// The digits of `n` in base `radix`, most significant first, with no leading zeros.
pub open spec fn digits_in(n: nat, radix: nat, upper: bool) -> Seq<char>
    decreases n,
{
    if n < radix || radix < 2 {
        seq![digit_char(n, upper)]
    } else {
        proof {
            assert(n / radix < n) by (nonlinear_arith)
                requires
                    n >= radix,
                    radix >= 2,
            ;
        }
        digits_in(n / radix, radix, upper).push(digit_char(n % radix, upper))
    }
}

/// `s` padded on the left with `'0'` to at least `width` characters.
pub open spec fn zero_padded(s: Seq<char>, width: nat) -> Seq<char> {
    if s.len() < width {
        Seq::new((width - s.len()) as nat, |i: int| '0') + s
    } else {
        s
    }
}

fn digit_exec(d: u64, upper: bool) -> (c: char)
    requires
        d < 36,
    ensures
        c == digit_char(d as nat, upper),
{
    if d < 10 {
        ((d + 48) as u8) as char
    } else if upper {
        ((d - 10 + 65) as u8) as char
    } else {
        ((d - 10 + 97) as u8) as char
    }
}

fn digits_exec(n: u64, radix: u64, upper: bool) -> (r: Vec<char>)
    requires
        2 <= radix <= 36,
    ensures
        r@ == digits_in(n as nat, radix as nat, upper),
    decreases n,
{
    if n < radix {
        let mut r: Vec<char> = Vec::new();
        r.push(digit_exec(n, upper));
        assert(r@ =~= seq![digit_char(n as nat, upper)]);
        r
    } else {
        assert(n / radix < n) by (nonlinear_arith)
            requires
                n >= radix,
                radix >= 2,
        ;
        let mut r = digits_exec(n / radix, radix, upper);
        r.push(digit_exec(n % radix, upper));
        r
    }
}

/// `n` written in decimal, as `format!("{}", n)` writes it.
pub fn decimal(n: u64) -> (r: Vec<char>)
    ensures
        r@ == digits_in(n as nat, 10, false),
{
    digits_exec(n, 10, false)
}

/// `n` written in hexadecimal and padded with zeros to `width` characters, as
/// `format!("{:04x}", n)` (width 4, lower case) writes it.
pub fn hex_padded(n: u64, width: usize, upper: bool) -> (r: Vec<char>)
    ensures
        r@ == zero_padded(digits_in(n as nat, 16, upper), width as nat),
{
    let d = digits_exec(n, 16, upper);
    if d.len() < width {
        let mut r: Vec<char> = Vec::new();
        let pad = width - d.len();
        let mut i: usize = 0;
        while i < pad
            invariant
                i <= pad,
                r@ =~= Seq::new(i as nat, |k: int| '0'),
            decreases pad - i,
        {
            r.push('0');
            i += 1;
        }
        let mut j: usize = 0;
        while j < d.len()
            invariant
                j <= d.len(),
                r@ =~= Seq::new(pad as nat, |k: int| '0') + d@.take(j as int),
            decreases d.len() - j,
        {
            r.push(d[j]);
            assert(d@.take(j + 1) =~= d@.take(j as int).push(d@[j as int]));
            j += 1;
        }
        assert(d@.take(d.len() as int) =~= d@);
        r
    } else {
        d
    }
}

// ───────────────────────────── wrapping arithmetic ─────────────────────────────

/// `n` reduced to 64 bits, as wrapping arithmetic on `u64` leaves it.
pub open spec fn wrap64(n: int) -> u64 {
    (n % 0x1_0000_0000_0000_0000) as u64
}

/// `a * b` in wrapping arithmetic.
pub fn mul_wrap(a: u64, b: u64) -> (r: u64)
    ensures
        r == wrap64(a * b),
{
    assert(a as u128 * b as u128 <= 0xffff_ffff_ffff_ffff_ffff_ffff_ffff_ffff) by (nonlinear_arith)
        requires
            a <= 0xffff_ffff_ffff_ffff,
            b <= 0xffff_ffff_ffff_ffff,
    ;
    ((a as u128 * b as u128) % 0x1_0000_0000_0000_0000u128) as u64
}

// ───────────────────────────── laws ─────────────────────────────

proof fn lemma_digit_char(d: nat, upper: bool)
    requires
        d < 36,
    ensures
        digit_of(digit_char(d, upper)) == d,
        digit_char(d, upper) != '+',
        digit_char(d, upper) != '-',
{
    let c = digit_char(d, upper);
    if d < 10 {
        assert(((d + 48) as u8) as u32 == d + 48);
    } else if upper {
        assert(((d - 10 + 65) as u8) as u32 == d - 10 + 65);
    } else {
        assert(((d - 10 + 97) as u8) as u32 == d - 10 + 97);
    }
}

proof fn lemma_digits_in(n: nat, radix: nat, upper: bool)
    requires
        2 <= radix <= 36,
    ensures
        digits_in(n, radix, upper).len() > 0,
        all_digits_in(digits_in(n, radix, upper), radix),
        value_in(digits_in(n, radix, upper), radix) == n,
        digits_in(n, radix, upper)[0] != '+',
        digits_in(n, radix, upper)[0] != '-',
    decreases n,
{
    let s = digits_in(n, radix, upper);
    if n < radix {
        assert(s.drop_last() =~= Seq::<char>::empty());
        lemma_digit_char(n, upper);
        assert(value_in(s.drop_last(), radix) == 0);
        assert(0 * radix == 0) by (nonlinear_arith);
        assert(value_in(s, radix) == value_in(s.drop_last(), radix) * radix + digit_of(s.last()));
    } else {
        assert(n / radix < n) by (nonlinear_arith)
            requires
                n >= radix,
                radix >= 2,
        ;
        lemma_digits_in(n / radix, radix, upper);
        let p = digits_in(n / radix, radix, upper);
        assert(s.drop_last() =~= p);
        assert(n % radix < radix) by (nonlinear_arith)
            requires
                radix >= 2,
        ;
        lemma_digit_char(n % radix, upper);
        assert forall|i: int| 0 <= i < s.len() implies is_digit_in(#[trigger] s[i], radix) by {
            if i < p.len() {
                assert(s[i] == p[i]);
            }
        }
        assert(n == (n / radix) * radix + n % radix) by (nonlinear_arith)
            requires
                radix >= 2,
        ;
        assert(s[0] == p[0]);
        assert(value_in(s, radix) == value_in(p, radix) * radix + digit_of(s.last()));
    }
}

/// Reading back what `decimal` writes gives the number again: for every `n`,
/// `n.to_string().parse::<u64>() == Ok(n)`.
pub proof fn law_decimal_round_trip(n: u64)
    ensures
        u64_of(digits_in(n as nat, 10, false)) == Some(n),
{
    lemma_digits_in(n as nat, 10, false);
}

/// Reading back, in base 16, the hexadecimal digits of a `u32` gives it again,
/// with either case of letters and with any zero padding.
pub proof fn law_hex_round_trip(n: u32, width: nat, upper: bool)
    ensures
        hex_u32_of(zero_padded(digits_in(n as nat, 16, upper), width)) == Some(n),
{
    let d = digits_in(n as nat, 16, upper);
    lemma_digits_in(n as nat, 16, upper);
    let p = zero_padded(d, width);
    if d.len() < width {
        lemma_leading_zeros(d, (width - d.len()) as nat);
    }
}

proof fn lemma_leading_zeros(d: Seq<char>, k: nat)
    requires
        d.len() > 0,
        all_digits_in(d, 16),
        d[0] != '+',
    ensures
        ({
            let s = Seq::new(k, |i: int| '0') + d;
            &&& s.len() > 0
            &&& s[0] != '+'
            &&& all_digits_in(s, 16)
            &&& value_in(s, 16) == value_in(d, 16)
        }),
{
    let z = Seq::new(k, |i: int| '0');
    let s = z + d;
    assert forall|i: int| 0 <= i < s.len() implies is_digit_in(#[trigger] s[i], 16) by {
        if i >= k {
            assert(s[i] == d[i - k]);
        } else {
            assert(s[i] == '0');
        }
    }
    lemma_zeros_value(k);
    lemma_value_after_zeros(z, d);
    if k > 0 {
        assert(s[0] == '0');
    } else {
        assert(s =~= d);
    }
}

proof fn lemma_value_after_zeros(z: Seq<char>, d: Seq<char>)
    requires
        value_in(z, 16) == 0,
    ensures
        value_in(z + d, 16) == value_in(d, 16),
    decreases d.len(),
{
    if d.len() == 0 {
        assert(z + d =~= z);
    } else {
        assert((z + d).drop_last() =~= z + d.drop_last());
        lemma_value_after_zeros(z, d.drop_last());
    }
}

proof fn lemma_zeros_value(k: nat)
    ensures
        value_in(Seq::new(k, |i: int| '0'), 16) == 0,
    decreases k,
{
    if k > 0 {
        assert(Seq::new(k, |i: int| '0').drop_last() =~= Seq::new((k - 1) as nat, |i: int| '0'));
        lemma_zeros_value((k - 1) as nat);
    }
}

} // verus!
