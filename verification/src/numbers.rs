//! Decimal integers: reading a signed 128-bit integer from text and writing
//! one back as text.
use vstd::prelude::*;

verus! {

/// `c` is one of `0..=9`.
pub open spec fn is_digit(c: char) -> bool {
    '0' <= c && c <= '9'
}

/// The value of the digit `c`.
pub open spec fn digit_value(c: char) -> int {
    c as int - '0' as int
}

/// The value of a string of decimal digits.
pub open spec fn digits_value(d: Seq<char>) -> int
    decreases d.len(),
{
    if d.len() == 0 {
        0
    } else {
        digits_value(d.drop_last()) * 10 + digit_value(d.last())
    }
}

/// Every character of `d` is a decimal digit.
pub open spec fn all_digits(d: Seq<char>) -> bool {
    forall|i: int| 0 <= i < d.len() ==> #[trigger] is_digit(d[i])
}

/// What `str::parse::<i128>` gives back, `None` for an error: an optional
/// `+` or `-`, then one or more decimal digits, the value within `i128`.
pub open spec fn spec_parse_i128(s: Seq<char>) -> Option<i128> {
    let neg = s.len() > 0 && s[0] == '-';
    let d = if s.len() > 0 && (s[0] == '-' || s[0] == '+') {
        s.drop_first()
    } else {
        s
    };
    let v = if neg {
        -digits_value(d)
    } else {
        digits_value(d)
    };
    if d.len() == 0 || !all_digits(d) {
        None
    } else if i128::MIN <= v <= i128::MAX {
        Some(v as i128)
    } else {
        None
    }
}

/// The digit character of `d`, for `0 <= d < 10`.
pub open spec fn digit_char(d: nat) -> char {
    if d == 0 {
        '0'
    } else if d == 1 {
        '1'
    } else if d == 2 {
        '2'
    } else if d == 3 {
        '3'
    } else if d == 4 {
        '4'
    } else if d == 5 {
        '5'
    } else if d == 6 {
        '6'
    } else if d == 7 {
        '7'
    } else if d == 8 {
        '8'
    } else {
        '9'
    }
}

/// The lowercase hexadecimal digit character of `d`, for `0 <= d < 16`.
pub open spec fn hex_char(d: nat) -> char {
    if d < 10 {
        digit_char(d)
    } else if d == 10 {
        'a'
    } else if d == 11 {
        'b'
    } else if d == 12 {
        'c'
    } else if d == 13 {
        'd'
    } else if d == 14 {
        'e'
    } else {
        'f'
    }
}

/// The lowercase hexadecimal digits of `n`, without leading zeros: what
/// `format!("{:x}", n)` writes.
pub open spec fn hex_digits(n: nat) -> Seq<char>
    decreases n,
{
    if n < 16 {
        seq![hex_char(n)]
    } else {
        hex_digits(n / 16).push(hex_char(n % 16))
    }
}

/// The decimal digits of `n`, without leading zeros.
pub open spec fn decimal_digits(n: nat) -> Seq<char>
    decreases n,
{
    if n < 10 {
        seq![digit_char(n)]
    } else {
        decimal_digits(n / 10).push(digit_char(n % 10))
    }
}

/// What `to_string` gives for an integer: a `-` for a negative one, then
/// its decimal digits.
pub open spec fn spec_decimal(v: int) -> Seq<char> {
    if v < 0 {
        seq!['-'] + decimal_digits((-v) as nat)
    } else {
        decimal_digits(v as nat)
    }
}

proof fn lemma_digits_value_nonneg(d: Seq<char>)
    requires
        all_digits(d),
    ensures
        digits_value(d) >= 0,
    decreases d.len(),
{
    if d.len() > 0 {
        assert(is_digit(d[d.len() - 1]));
        assert(all_digits(d.drop_last())) by {
            assert forall|i: int| 0 <= i < d.drop_last().len() implies is_digit(
                d.drop_last()[i],
            ) by {
                assert(is_digit(d[i]));
            }
        }
        lemma_digits_value_nonneg(d.drop_last());
    }
}

/// The value of a digit string is at least the value of each of its prefixes.
proof fn lemma_digits_value_grows(d: Seq<char>, k: int)
    requires
        all_digits(d),
        0 <= k <= d.len(),
    ensures
        digits_value(d.take(k)) <= digits_value(d),
    decreases d.len() - k,
{
    if k < d.len() {
        let t = d.take(k + 1);
        assert(t.drop_last() == d.take(k));
        assert(is_digit(d[k]));
        assert(all_digits(d.take(k))) by {
            assert forall|i: int| 0 <= i < d.take(k).len() implies is_digit(d.take(k)[i]) by {
                assert(is_digit(d[i]));
            }
        }
        lemma_digits_value_nonneg(d.take(k));
        lemma_digits_value_grows(d, k + 1);
    } else {
        assert(d.take(k) == d);
    }
}

/// `str::parse::<i128>` on characters.
pub fn parse_i128(s: &[char]) -> (r: Option<i128>)
    ensures
        r == spec_parse_i128(s@),
{
    let n = s.len();
    let neg = n > 0 && s[0] == '-';
    let start: usize = if n > 0 && (s[0] == '-' || s[0] == '+') {
        1
    } else {
        0
    };
    let ghost d = if n > 0 && (s@[0] == '-' || s@[0] == '+') {
        s@.drop_first()
    } else {
        s@
    };
    assert(d == s@.skip(start as int));
    if start == n {
        return None;
    }
    let mut acc: i128 = 0;
    let mut i: usize = start;
    while i < n
        invariant
            n == s@.len(),
            neg == (n > 0 && s@[0] == '-'),
            start == (if n > 0 && (s@[0] == '-' || s@[0] == '+') {
                1int
            } else {
                0int
            }),
            start < n,
            start <= i <= n,
            d == s@.skip(start as int),
            all_digits(d.take(i - start)),
            acc == (if neg {
                -digits_value(d.take(i - start))
            } else {
                digits_value(d.take(i - start))
            }),
        decreases n - i,
    {
        let c = s[i];
        let ghost k: int = i - start;
        if !('0' <= c && c <= '9') {
            assert(!is_digit(d[k]));
            assert(d.len() > 0 && !all_digits(d));
            return None;
        }
        assert(d.take(k + 1).drop_last() == d.take(k));
        assert(d.take(k + 1).last() == c);
        assert(all_digits(d.take(k + 1))) by {
            assert forall|j: int| 0 <= j < k + 1 implies #[trigger] is_digit(d.take(k + 1)[j]) by {
                if j < k {
                    assert(d.take(k + 1)[j] == d.take(k)[j]);
                }
            }
        }
        let dv = ((c as u32) - ('0' as u32)) as i128;
        let step = acc.checked_mul(10);
        let next = match step {
            Some(m) => if neg {
                m.checked_sub(dv)
            } else {
                m.checked_add(dv)
            },
            None => None,
        };
        match next {
            Some(v) => {
                acc = v;
            },
            None => {
                proof {
                    lemma_digits_value_nonneg(d.take(k));
                    let big = digits_value(d.take(k + 1));
                    assert(big == digits_value(d.take(k)) * 10 + digit_value(c));
                    if neg {
                        assert(-big < i128::MIN);
                    } else {
                        assert(big > i128::MAX);
                    }
                    if all_digits(d) {
                        lemma_digits_value_grows(d, k + 1);
                        assert(digits_value(d) >= big);
                    }
                    assert(d.len() > 0);
                    let dd = if n > 0 && (s@[0] == '-' || s@[0] == '+') {
                        s@.drop_first()
                    } else {
                        s@
                    };
                    assert(dd == d);
                    if all_digits(d) {
                        if neg {
                            assert(-digits_value(d) < i128::MIN);
                        } else {
                            assert(digits_value(d) > i128::MAX);
                        }
                    }
                    assert(spec_parse_i128(s@) is None);
                }
                return None;
            },
        }
        i += 1;
    }
    assert(d.take(n - start) == d);
    Some(acc)
}

/// The digit character of `d`.
fn digit_of(d: u128) -> (c: char)
    requires
        d < 10,
    ensures
        c == digit_char(d as nat),
{
    if d == 0 {
        '0'
    } else if d == 1 {
        '1'
    } else if d == 2 {
        '2'
    } else if d == 3 {
        '3'
    } else if d == 4 {
        '4'
    } else if d == 5 {
        '5'
    } else if d == 6 {
        '6'
    } else if d == 7 {
        '7'
    } else if d == 8 {
        '8'
    } else {
        '9'
    }
}

/// The lowercase hexadecimal digit of `d < 16`.
fn hex_digit_of(d: u128) -> (c: char)
    requires
        d < 16,
    ensures
        c == hex_char(d as nat),
{
    if d < 10 {
        digit_of(d)
    } else if d == 10 {
        'a'
    } else if d == 11 {
        'b'
    } else if d == 12 {
        'c'
    } else if d == 13 {
        'd'
    } else if d == 14 {
        'e'
    } else {
        'f'
    }
}

/// The lowercase hexadecimal digits of `n`.
pub fn hex_of_u128(n: u128) -> (r: Vec<char>)
    ensures
        r@ == hex_digits(n as nat),
    decreases n,
{
    if n < 16 {
        let mut v: Vec<char> = Vec::new();
        v.push(hex_digit_of(n));
        v
    } else {
        let mut v = hex_of_u128(n / 16);
        v.push(hex_digit_of(n % 16));
        v
    }
}

/// The decimal digits of `n`.
pub fn decimal_of_u128(n: u128) -> (r: Vec<char>)
    ensures
        r@ == decimal_digits(n as nat),
    decreases n,
{
    if n < 10 {
        let mut v: Vec<char> = Vec::new();
        v.push(digit_of(n));
        v
    } else {
        let mut v = decimal_of_u128(n / 10);
        v.push(digit_of(n % 10));
        v
    }
}

/// `i128::to_string`, as characters.
pub fn decimal_of_i128(v: i128) -> (r: Vec<char>)
    ensures
        r@ == spec_decimal(v as int),
{
    if v < 0 {
        let mag: u128 = if v == i128::MIN {
            170141183460469231731687303715884105728u128
        } else {
            (-v) as u128
        };
        let digits = decimal_of_u128(mag);
        let mut out: Vec<char> = Vec::new();
        out.push('-');
        let mut i: usize = 0;
        while i < digits.len()
            invariant
                i <= digits.len(),
                out@ == seq!['-'] + digits@.take(i as int),
            decreases digits.len() - i,
        {
            out.push(digits[i]);
            i += 1;
            assert(digits@.take(i as int) == digits@.take(i - 1).push(digits@[i - 1]));
        }
        assert(digits@.take(digits.len() as int) == digits@);
        out
    } else {
        decimal_of_u128(v as u128)
    }
}

} // verus!
