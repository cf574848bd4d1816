//! Unsigned numbers in text: formatting a `u64` in decimal, and parsing one
//! as `from_str_radix` does (an optional `+`, then one or more digits of the
//! radix, with no overflow past the type's maximum).
use vstd::prelude::*;

verus! {

/// The value of `c` as a digit of any radix up to 36: `0`-`9`, then `a`-`z`
/// or `A`-`Z`; 36 for any other character.
pub open spec fn radix_digit(c: char) -> int {
    if '0' <= c && c <= '9' {
        (c as int) - ('0' as int)
    } else if 'a' <= c && c <= 'z' {
        (c as int) - ('a' as int) + 10
    } else if 'A' <= c && c <= 'Z' {
        (c as int) - ('A' as int) + 10
    } else {
        36
    }
}

/// Whether `c` is an ASCII decimal digit.
pub open spec fn is_digit(c: char) -> bool {
    '0' <= c && c <= '9'
}

/// The ASCII digit of a value below 10.
pub open spec fn digit_char(v: int) -> char {
    (('0' as int) + v) as char
}

/// Whether every character of `s` is a digit of `radix`.
pub open spec fn all_radix_digits(s: Seq<char>, radix: int) -> bool {
    forall|i: int| 0 <= i < s.len() ==> radix_digit(#[trigger] s[i]) < radix
}

/// Whether every character of `s` is an ASCII decimal digit.
pub open spec fn all_digits(s: Seq<char>) -> bool {
    forall|i: int| 0 <= i < s.len() ==> is_digit(#[trigger] s[i])
}

/// The value of the digits `s` in `radix`.
pub open spec fn radix_value(s: Seq<char>, radix: int) -> int
    decreases s.len(),
{
    if s.len() == 0 {
        0
    } else {
        radix_value(s.drop_last(), radix) * radix + radix_digit(s.last())
    }
}

/// `s` without one leading `+`, if it has one.
pub open spec fn unsigned_digits(s: Seq<char>) -> Seq<char> {
    if s.len() > 0 && s[0] == '+' {
        s.drop_first()
    } else {
        s
    }
}

/// The number that `from_str_radix` reads from `s` in `radix` for a type
/// whose largest value is `max`, if any.
pub open spec fn parse_unsigned(s: Seq<char>, radix: int, max: int) -> Option<int> {
    let d = unsigned_digits(s);
    if d.len() > 0 && all_radix_digits(d, radix) && radix_value(d, radix) <= max {
        Some(radix_value(d, radix))
    } else {
        None
    }
}

/// The number that `str::parse::<u64>` reads from `s`, if any.
pub open spec fn parse_u64_spec(s: Seq<char>) -> Option<u64> {
    match parse_unsigned(s, 10, u64::MAX as int) {
        Some(v) => Some(v as u64),
        None => None,
    }
}

/// The decimal digits of `n`, without leading zeros.
pub open spec fn decimal(n: nat) -> Seq<char>
    decreases n,
{
    if n < 10 {
        seq![digit_char(n as int)]
    } else {
        decimal(n / 10).push(digit_char((n % 10) as int))
    }
}

proof fn lemma_radix_value_nonneg(s: Seq<char>, radix: int)
    requires
        radix >= 1,
        all_radix_digits(s, radix),
    ensures
        0 <= radix_value(s, radix),
    decreases s.len(),
{
    if s.len() > 0 {
        assert(all_radix_digits(s.drop_last(), radix));
        lemma_radix_value_nonneg(s.drop_last(), radix);
        assert(radix_digit(s[s.len() - 1]) >= 0);
        assert(radix_value(s.drop_last(), radix) * radix >= 0) by (nonlinear_arith)
            requires
                radix_value(s.drop_last(), radix) >= 0,
                radix >= 1,
        ;
    }
}

proof fn lemma_radix_value_monotone(s: Seq<char>, radix: int, i: int)
    requires
        radix >= 1,
        0 <= i <= s.len(),
        all_radix_digits(s, radix),
    ensures
        radix_value(s.take(i), radix) <= radix_value(s, radix),
    decreases s.len() - i,
{
    if i < s.len() {
        lemma_radix_value_monotone(s, radix, i + 1);
        assert(s.take(i + 1).drop_last() =~= s.take(i));
        assert(radix_digit(s[i]) >= 0);
        assert(all_radix_digits(s.take(i), radix));
        lemma_radix_value_nonneg(s.take(i), radix);
        let v = radix_value(s.take(i), radix);
        assert(v <= v * radix + radix_digit(s[i])) by (nonlinear_arith)
            requires
                v >= 0,
                radix >= 1,
                radix_digit(s[i]) >= 0,
        ;
        assert(radix_value(s.take(i + 1), radix) == v * radix + radix_digit(s[i]));
    } else {
        assert(s.take(i) =~= s);
    }
}

/// The digit value of `c` in radix 36 (36 for a non-digit).
fn radix_digit_of(c: char) -> (d: u32)
    ensures
        d == radix_digit(c),
{
    if '0' <= c && c <= '9' {
        (c as u32) - ('0' as u32)
    } else if 'a' <= c && c <= 'z' {
        (c as u32) - ('a' as u32) + 10
    } else if 'A' <= c && c <= 'Z' {
        (c as u32) - ('A' as u32) + 10
    } else {
        36
    }
}

/// Parses `s` as `from_str_radix` does for an unsigned type whose largest
/// value is `max`.
pub fn parse_radix(s: &[char], radix: u32, max: u64) -> (r: Option<u64>)
    requires
        2 <= radix <= 36,
    ensures
        match parse_unsigned(s@, radix as int, max as int) {
            Some(v) => r == Some(v as u64) && 0 <= v <= max,
            None => r is None,
        },
{
    let start: usize = if s.len() > 0 && s[0] == '+' { 1 } else { 0 };
    let ghost d = unsigned_digits(s@);
    assert(d =~= s@.skip(start as int));
    if start >= s.len() {
        return None;
    }
    let mut value: u64 = 0;
    let mut i = start;
    assert(d.take(0) =~= Seq::<char>::empty());
    while i < s.len()
        invariant
            start <= i <= s@.len(),
            2 <= radix <= 36,
            d == s@.skip(start as int),
            d == unsigned_digits(s@),
            all_radix_digits(d.take(i - start), radix as int),
            value == radix_value(d.take(i - start), radix as int),
        decreases s@.len() - i,
    {
        let c = s[i];
        let digit = radix_digit_of(c);
        if digit >= radix {
            assert(d[i - start] == c);
            return None;
        }
        assert(d.take(i - start + 1).drop_last() =~= d.take(i - start));
        assert(d.take(i - start + 1).last() == c);
        assert(all_radix_digits(d.take(i - start + 1), radix as int));
        match value.checked_mul(radix as u64) {
            None => {
                proof {
                    if all_radix_digits(d, radix as int) {
                        lemma_radix_value_monotone(d, radix as int, i - start + 1);
                    }
                }
                return None;
            },
            Some(m) => match m.checked_add(digit as u64) {
                None => {
                    proof {
                        if all_radix_digits(d, radix as int) {
                            lemma_radix_value_monotone(d, radix as int, i - start + 1);
                        }
                    }
                    return None;
                },
                Some(v) => {
                    value = v;
                },
            },
        }
        i = i + 1;
    }
    assert(d.take(i - start) =~= d);
    if value <= max {
        Some(value)
    } else {
        None
    }
}

/// Parses `s` as `str::parse::<u64>` does.
pub fn parse_u64(s: &[char]) -> (r: Option<u64>)
    ensures
        r == parse_u64_spec(s@),
{
    parse_radix(s, 10, u64::MAX)
}

/// Appends the decimal digits of `n` to `out`.
pub fn push_decimal(n: u64, out: &mut Vec<char>)
    ensures
        final(out)@ == old(out)@ + decimal(n as nat),
    decreases n,
{
    if n >= 10 {
        push_decimal(n / 10, out);
    }
    let d = (n % 10) as u8;
    let c = ('0' as u8 + d) as char;
    out.push(c);
    assert(out@ =~= old(out)@ + decimal(n as nat));
}

/// The decimal digits of `n`.
pub fn u64_to_decimal(n: u64) -> (s: String)
    ensures
        s@ == decimal(n as nat),
{
    let mut v: Vec<char> = Vec::new();
    push_decimal(n, &mut v);
    assert(v@ =~= decimal(n as nat));
    crate::text::string_from(v.as_slice())
}

/// The decimal digits of a number parse back to the number.
pub proof fn lemma_decimal_round_trip(n: u64)
    ensures
        parse_u64_spec(decimal(n as nat)) == Some(n),
{
    lemma_decimal_digits(n as nat);
    let d = decimal(n as nat);
    assert(d[0] != '+');
    assert(unsigned_digits(d) == d);
    assert(all_radix_digits(d, 10)) by {
        assert forall|i: int| 0 <= i < d.len() implies radix_digit(#[trigger] d[i]) < 10 by {
            assert(is_digit(d[i]));
        }
    }
}

/// Decimal digits of a number: at least one, all ASCII digits, and of the
/// number's value.
pub proof fn lemma_decimal_digits(n: nat)
    ensures
        decimal(n).len() > 0,
        all_digits(decimal(n)),
        radix_value(decimal(n), 10) == n,
    decreases n,
{
    let d = decimal(n);
    if n >= 10 {
        lemma_decimal_digits(n / 10);
        let k: int = (n % 10) as int;
        assert(d.drop_last() =~= decimal(n / 10));
        assert(d.last() == digit_char(k));
        assert(radix_digit(digit_char(k)) == k);
        assert(n == (n / 10) * 10 + k);
        assert(radix_value(d, 10) == radix_value(decimal(n / 10), 10) * 10 + k);
        assert(all_digits(d)) by {
            assert forall|i: int| 0 <= i < d.len() implies is_digit(#[trigger] d[i]) by {
                if i < d.len() - 1 {
                    assert(d[i] == decimal(n / 10)[i]);
                }
            }
        }
    } else {
        assert(d.drop_last() =~= Seq::<char>::empty());
        assert(radix_digit(digit_char(n as int)) == n);
        assert(radix_value(d, 10) == radix_value(d.drop_last(), 10) * 10 + radix_digit(d.last()));
    }
}

} // verus!
