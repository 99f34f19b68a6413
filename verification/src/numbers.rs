//! Numbers as texts.
use vstd::prelude::*;
use crate::text;

verus! {

/// The digit for a number below ten.
pub open spec fn digit(d: int) -> char {
    (d + 48) as char
}

/// A number in decimal digits.
pub open spec fn decimal(n: int) -> Seq<char>
    decreases n,
{
    if n < 10 {
        seq![digit(n)]
    } else {
        decimal(n / 10).push(digit(n % 10))
    }
}

fn digit_of(d: usize) -> (r: char)
    requires
        d < 10,
    ensures
        r == digit(d as int),
{
    let b: u8 = d as u8 + 48;
    b as char
}

/// A number in decimal digits.
pub fn decimal_of(n: usize) -> (r: Vec<char>)
    ensures
        r@ == decimal(n as int),
    decreases n,
{
    let mut out = if n < 10 {
        Vec::new()
    } else {
        decimal_of(n / 10)
    };
    out.push(digit_of(n % 10));
    assert(out@ == decimal(n as int));
    out
}

/// Appends a number in decimal digits.
pub fn push_number(out: &mut String, n: usize)
    ensures
        final(out)@ == old(out)@ + decimal(n as int),
{
    let digits = decimal_of(n);
    text::push_chars(out, digits.as_slice());
}

/// The value of a digit in a radix of at most sixteen.
pub open spec fn digit_value(c: char, radix: int) -> Option<int> {
    let v = if '0' <= c <= '9' {
        c as int - '0' as int
    } else if 'a' <= c <= 'f' {
        c as int - 'a' as int + 10
    } else if 'A' <= c <= 'F' {
        c as int - 'A' as int + 10
    } else {
        16
    };
    if v < radix {
        Some(v)
    } else {
        None
    }
}

/// The value of digits in a radix, if there are only such.
pub open spec fn digits_value(s: Seq<char>, radix: int) -> Option<int>
    decreases s.len(),
{
    if s.len() == 0 {
        Some(0)
    } else {
        match (digits_value(s.drop_last(), radix), digit_value(s.last(), radix)) {
            (Some(v), Some(d)) => Some(v * radix + d),
            _ => None,
        }
    }
}

/// The number that a text stands for in a radix: digits, after a plus sign if there is one,
/// with a value that fits in 32 bits.
pub open spec fn number_in(s: Seq<char>, radix: int) -> Option<int> {
    let digits = if s.len() > 1 && s[0] == '+' {
        s.skip(1)
    } else {
        s
    };
    match digits_value(digits, radix) {
        Some(v) => if digits.len() > 0 && v <= u32::MAX {
            Some(v)
        } else {
            None
        },
        None => None,
    }
}

fn value_of_digit(c: char, radix: u32) -> (r: Option<u32>)
    requires
        radix <= 16,
    ensures
        (match r {
            Some(v) => Some(v as int),
            None => None,
        }) == digit_value(c, radix as int),
        r matches Some(v) ==> v < radix,
{
    let n: u32 = c as u32;
    let v: u32 = if '0' <= c && c <= '9' {
        n - 48
    } else if 'a' <= c && c <= 'f' {
        n - 97 + 10
    } else if 'A' <= c && c <= 'F' {
        n - 65 + 10
    } else {
        16
    };
    if v < radix {
        Some(v)
    } else {
        None
    }
}

proof fn lemma_value_grows(s: Seq<char>, radix: int, k: int)
    requires
        0 <= k <= s.len(),
        2 <= radix <= 16,
    ensures
        digits_value(s, radix) matches Some(v) ==> (digits_value(s.take(k), radix) matches Some(w) && 0 <= w <= v),
    decreases s.len() - k,
{
    if k == s.len() {
        assert(s.take(k) == s);
        lemma_value_nonneg(s, radix);
    } else {
        lemma_value_grows(s, radix, k + 1);
        assert(s.take(k + 1).drop_last() == s.take(k));
        lemma_value_nonneg(s.take(k), radix);
        match (digits_value(s.take(k), radix), digit_value(s.take(k + 1).last(), radix)) {
            (Some(w), Some(d)) => {
                assert(w <= w * radix + d) by (nonlinear_arith)
                    requires
                        w >= 0,
                        radix >= 2,
                        d >= 0,
                ;
            },
            _ => {},
        }
    }
}

proof fn lemma_value_nonneg(s: Seq<char>, radix: int)
    requires
        2 <= radix <= 16,
    ensures
        digits_value(s, radix) matches Some(v) ==> v >= 0,
    decreases s.len(),
{
    if s.len() > 0 {
        lemma_value_nonneg(s.drop_last(), radix);
        match (digits_value(s.drop_last(), radix), digit_value(s.last(), radix)) {
            (Some(w), Some(d)) => {
                assert(w * radix + d >= 0) by (nonlinear_arith)
                    requires
                        w >= 0,
                        radix >= 2,
                        d >= 0,
                ;
            },
            _ => {},
        }
    }
}

/// The number that a text stands for in a radix.
pub fn parse_in(s: &[char], radix: u32) -> (r: Option<u32>)
    requires
        2 <= radix <= 16,
    ensures
        (match r {
            Some(v) => Some(v as int),
            None => None,
        }) == number_in(s@, radix as int),
{
    let digits = if s.len() > 1 && s[0] == '+' {
        text::from(s, 1)
    } else {
        s
    };
    if digits.len() == 0 {
        return None;
    }
    let mut v: u64 = 0;
    let mut j: usize = 0;
    assert(digits@.take(0) == Seq::<char>::empty());
    while j < digits.len()
        invariant
            0 <= j <= digits@.len(),
            2 <= radix <= 16,
            v <= u32::MAX,
            digits@ == if s@.len() > 1 && s@[0] == '+' {
                s@.skip(1)
            } else {
                s@
            },
            digits@.len() > 0,
            digits_value(digits@.take(j as int), radix as int) == Some(v as int),
        decreases digits@.len() - j,
    {
        proof {
            lemma_value_grows(digits@, radix as int, j + 1);
            assert(digits@.take(j + 1).drop_last() == digits@.take(j as int));
            assert(digits@.take(j + 1).last() == digits@[j as int]);
        }
        match value_of_digit(digits[j], radix) {
            Some(d) => {
                assert(0 <= v * radix <= 0xffff_ffffu64 * 16) by (nonlinear_arith)
                    requires
                        v <= 0xffff_ffff,
                        radix <= 16,
                ;
                v = v * radix as u64 + d as u64;
                if v > u32::MAX as u64 {
                    return None;
                }
            },
            None => return None,
        }
        j += 1;
    }
    assert(digits@.take(j as int) == digits@);
    Some(v as u32)
}

/// The digit for a number below sixteen, those from ten on in upper or in lower case.
pub open spec fn radix_digit(d: int, upper: bool) -> char {
    if d < 10 {
        digit(d)
    } else if upper {
        (d - 10 + 65) as char
    } else {
        (d - 10 + 97) as char
    }
}

/// A number in the digits of a radix, those from ten on in upper or in lower case.
pub open spec fn written_in(n: int, radix: int, upper: bool) -> Seq<char>
    decreases n,
{
    proof {
        if n >= radix && radix >= 2 {
            vstd::arithmetic::div_mod::lemma_div_decreases(n, radix);
        }
    }
    if n < radix || radix < 2 {
        seq![radix_digit(n, upper)]
    } else {
        written_in(n / radix, radix, upper).push(radix_digit(n % radix, upper))
    }
}

/// Whether a character is a digit in a radix of at most sixteen.
pub open spec fn is_digit(c: char) -> bool {
    '0' <= c <= '9' || 'a' <= c <= 'f' || 'A' <= c <= 'F'
}

proof fn lemma_radix_digit(d: int, radix: int, upper: bool)
    requires
        0 <= d < radix <= 16,
    ensures
        digit_value(radix_digit(d, upper), radix) == Some(d),
        is_digit(radix_digit(d, upper)),
        radix <= 10 ==> '0' <= radix_digit(d, upper) <= '9',
        radix_digit(d, upper) == '0' <==> d == 0,
{
}

/// Reading the digits of a number gives the number back, in every radix.
pub proof fn law_digits_are_read_back(n: int, radix: int, upper: bool)
    requires
        0 <= n,
        2 <= radix <= 16,
    ensures
        ({
            let s = written_in(n, radix, upper);
            &&& digits_value(s, radix) == Some(n)
            &&& s.len() > 0
            &&& s[0] == '0' <==> n == 0
            &&& n == 0 ==> s.len() == 1
            &&& forall|k: int| 0 <= k < s.len() ==> is_digit(#[trigger] s[k])
        }),
    decreases n,
{
    let s = written_in(n, radix, upper);
    if n < radix {
        lemma_radix_digit(n, radix, upper);
        assert(s.drop_last() == Seq::<char>::empty());
        assert(0 * radix + n == n) by (nonlinear_arith);
        assert(s.last() == radix_digit(n, upper));
        assert(digits_value(s.drop_last(), radix) == Some(0int));
        assert(digits_value(s, radix) == Some(n));
    } else {
        let m = n / radix;
        let d = n % radix;
        vstd::arithmetic::div_mod::lemma_div_decreases(n, radix);
        vstd::arithmetic::div_mod::lemma_div_pos_is_pos(n, radix);
        vstd::arithmetic::div_mod::lemma_mod_bound(n, radix);
        vstd::arithmetic::div_mod::lemma_fundamental_div_mod(n, radix);
        vstd::arithmetic::div_mod::lemma_div_non_zero(n, radix);
        law_digits_are_read_back(m, radix, upper);
        lemma_radix_digit(d, radix, upper);
        let front = written_in(m, radix, upper);
        assert(s == front.push(radix_digit(d, upper)));
        assert(s.drop_last() == front);
        assert(s.last() == radix_digit(d, upper));
        assert(m * radix + d == n) by (nonlinear_arith)
            requires
                n == radix * m + d,
        ;
        assert(digits_value(s, radix) == Some(n));
        assert(s[0] == front[0]);
        assert forall|k: int| 0 <= k < s.len() implies is_digit(#[trigger] s[k]) by {
            if k < front.len() {
                assert(s[k] == front[k]);
            }
        }
    }
}

/// The decimal digits of a number are its digits in radix ten.
pub proof fn lemma_decimal_is_written(n: int)
    requires
        0 <= n,
    ensures
        decimal(n) == written_in(n, 10, false),
    decreases n,
{
    if n >= 10 {
        lemma_decimal_is_written(n / 10);
    }
}

/// A number is what its digits in a radix stand for, as long as it fits in 32 bits.
pub proof fn law_numbers_are_read_back(n: int, radix: int, upper: bool)
    requires
        0 <= n <= u32::MAX,
        2 <= radix <= 16,
    ensures
        number_in(written_in(n, radix, upper), radix) == Some(n),
{
    law_digits_are_read_back(n, radix, upper);
    assert(is_digit(written_in(n, radix, upper)[0]));
}

} // verus!
