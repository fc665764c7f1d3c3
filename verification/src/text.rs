//! Decimal text of integers: a mathematical reading of numeric
//! literals and verified parsing and formatting routines.  Cell values
//! travel through the store as text, so the typed constraints of the
//! catalog are all stated over these functions.

use vstd::prelude::*;

verus! {

/// The decimal digits, as character codes.
pub open spec fn is_dec_digit(c: char) -> bool {
    48 <= c as int && c as int <= 57
}

/// Numeric value of one decimal digit character.
pub open spec fn digit_val(c: char) -> int {
    c as int - 48
}

/// Every character of `s` is a decimal digit.
pub open spec fn all_digits(s: Seq<char>) -> bool {
    forall|i: int| 0 <= i < s.len() ==> is_dec_digit(s[i])
}

/// Value of a digit string read most-significant first.
pub open spec fn digits_val(s: Seq<char>) -> int
    decreases s.len(),
{
    if s.len() == 0 {
        0
    } else {
        digits_val(s.drop_last()) * 10 + digit_val(s.last())
    }
}

/// The integer denoted by a literal: an optional sign followed by at
/// least one digit.  `None` when the text is not an integer literal.
pub open spec fn int_literal(s: Seq<char>) -> Option<int> {
    if s.len() >= 2 && (s[0] == '-' || s[0] == '+') && all_digits(s.skip(1)) {
        if s[0] == '-' {
            Some(-digits_val(s.skip(1)))
        } else {
            Some(digits_val(s.skip(1)))
        }
    } else if s.len() >= 1 && all_digits(s) {
        Some(digits_val(s))
    } else {
        None
    }
}

/// One more than the largest magnitude the parser tracks exactly;
/// equal to 2^63, so every value of every supported column type is
/// covered.
pub const MAG_LIMIT: u64 = 9223372036854775808;

/// Outcome of parsing an integer literal: the sign, the magnitude, and
/// whether the magnitude exceeded [`MAG_LIMIT`].
#[derive(Clone, Copy, PartialEq, Eq, Structural, Debug)]
pub struct ParsedInt {
    pub negative: bool,
    pub oversized: bool,
    pub magnitude: u64,
}

proof fn lemma_digits_val_nonneg(s: Seq<char>)
    requires
        all_digits(s),
    ensures
        digits_val(s) >= 0,
    decreases s.len(),
{
    if s.len() > 0 {
        assert(all_digits(s.drop_last()));
        lemma_digits_val_nonneg(s.drop_last());
    }
}

proof fn lemma_digits_val_step(s: Seq<char>, i: int)
    requires
        0 <= i < s.len(),
    ensures
        digits_val(s.take(i + 1)) == digits_val(s.take(i)) * 10 + digit_val(s[i]),
{
    assert(s.take(i + 1).drop_last() =~= s.take(i));
    assert(s.take(i + 1).last() == s[i]);
}

/// Parse an integer literal.  `None` exactly when the text is not an
/// optional sign followed by one or more decimal digits; otherwise the
/// sign and magnitude of the denoted value, with magnitudes beyond
/// [`MAG_LIMIT`] reported as `oversized` instead of exactly.
pub fn parse_int_literal(s: &str) -> (r: Option<ParsedInt>)
    ensures
        r is Some <==> int_literal(s@) is Some,
        r matches Some(p) ==> {
            let v = int_literal(s@).unwrap();
            &&& p.negative == (s@[0] == '-')
            &&& (!p.oversized ==> p.magnitude <= MAG_LIMIT && v == if p.negative {
                -(p.magnitude as int)
            } else {
                p.magnitude as int
            })
            &&& (p.oversized ==> (p.negative ==> v < -(MAG_LIMIT as int)) && (!p.negative ==> v
                > MAG_LIMIT as int))
        },
{
    let n = s.unicode_len();
    if n == 0 {
        return None;
    }
    let first = s.get_char(0);
    let negative = first == '-';
    let signed = negative || first == '+';
    let start: usize = if signed {
        1
    } else {
        0
    };
    if start >= n {
        // a bare sign with no digits
        return None;
    }
    let ghost digits: Seq<char> = if signed {
        s@.skip(1)
    } else {
        s@
    };
    let mut i: usize = start;
    let mut magnitude: u64 = 0;
    let mut oversized: bool = false;
    while i < n
        invariant
            start <= i <= n,
            n == s@.len(),
            start < n,
            start == if signed { 1int } else { 0int },
            negative == (s@[0] == '-'),
            signed ==> (s@[0] == '-' || s@[0] == '+'),
            !signed ==> (s@[0] != '-' && s@[0] != '+'),
            digits == if signed { s@.skip(1) } else { s@ },
            all_digits(digits.take(i - start)),
            !oversized ==> magnitude <= MAG_LIMIT && magnitude == digits_val(digits.take(i - start)),
            oversized ==> digits_val(digits.take(i - start)) > MAG_LIMIT,
        decreases n - i,
    {
        let c = s.get_char(i);
        let code = c as u32;
        proof {
            assert(digits[i - start] == s@[i as int]);
        }
        if code < 48 || code > 57 {
            proof {
                assert(!is_dec_digit(digits[i - start]));
                assert(!all_digits(digits));
                if signed {
                    assert(s@[0] == '-' || s@[0] == '+');
                    assert(('-' as int) == 45 && ('+' as int) == 43);
                    assert(!is_dec_digit(s@[0]));
                    assert(!all_digits(s@));
                    assert(!all_digits(s@.skip(1)));
                } else {
                    assert(!all_digits(s@));
                }
                assert(int_literal(s@) is None);
            }
            return None;
        }
        let d: u64 = (code - 48) as u64;
        proof {
            lemma_digits_val_step(digits, i - start);
            assert(digits.take(i - start + 1).drop_last() =~= digits.take(i - start));
        }
        if oversized {
            proof {
                lemma_digits_val_nonneg(digits.take(i - start));
                assert(digits_val(digits.take(i - start + 1)) > MAG_LIMIT);
            }
        } else if magnitude > (MAG_LIMIT - d) / 10 {
            proof {
                assert(digits_val(digits.take(i - start + 1)) == magnitude * 10 + d);
                assert(magnitude * 10 + d > MAG_LIMIT) by (nonlinear_arith)
                    requires
                        magnitude > (MAG_LIMIT - d) / 10,
                        d <= 9,
                        MAG_LIMIT == 9223372036854775808,
                ;
            }
            oversized = true;
        } else {
            proof {
                assert(magnitude * 10 + d <= MAG_LIMIT) by (nonlinear_arith)
                    requires
                        magnitude <= (MAG_LIMIT - d) / 10,
                        d <= 9,
                        MAG_LIMIT == 9223372036854775808,
                ;
            }
            magnitude = magnitude * 10 + d;
        }
        i = i + 1;
        proof {
            assert(forall|k: int|
                0 <= k < i - start ==> digits.take(i - start)[k] == digits[k]);
        }
    }
    proof {
        assert(digits.take(i - start) =~= digits.take(digits.len() as int));
        assert(digits.take(digits.len() as int) =~= digits);
        if signed {
            assert(s@.len() >= 2);
            assert(s@[0] == '-' || s@[0] == '+');
            assert(int_literal(s@) == Some(
                if s@[0] == '-' {
                    -digits_val(digits)
                } else {
                    digits_val(digits)
                },
            ));
        } else {
            assert(is_dec_digit(digits[0]));
            assert(s@[0] != '-' && s@[0] != '+');
            assert(int_literal(s@) == Some(digits_val(digits)));
        }
        if oversized && negative {
            assert(int_literal(s@).unwrap() == -digits_val(digits));
        }
    }
    Some(ParsedInt { negative, oversized, magnitude })
}

/// Character-for-character equality of two string slices.
pub fn str_eq(a: &str, b: &str) -> (r: bool)
    ensures
        r == (a@ == b@),
{
    let na = a.unicode_len();
    let nb = b.unicode_len();
    if na != nb {
        proof {
            assert(a@ != b@) by {
                if a@ == b@ {
                    assert(a@.len() == b@.len());
                }
            }
        }
        return false;
    }
    let mut i: usize = 0;
    while i < na
        invariant
            0 <= i <= na,
            na == a@.len(),
            na == b@.len(),
            forall|k: int| 0 <= k < i ==> a@[k] == b@[k],
        decreases na - i,
    {
        if a.get_char(i) != b.get_char(i) {
            proof {
                assert(a@ != b@) by {
                    if a@ == b@ {
                        assert(a@[i as int] == b@[i as int]);
                    }
                }
            }
            return false;
        }
        i = i + 1;
    }
    proof {
        assert(a@ =~= b@);
    }
    true
}

/// Decimal digit character for a value in `0 ..= 9`.
pub open spec fn dec_digit_char(d: int) -> char {
    if d == 0 {
        '0'
    } else if d == 1 {
        '1'
    } else if d == 2 {
        '2'
    } else if d == 3 {
        '3'
    } else if d == 4 {
        '4'
    } else if d == 5 {
        '5'
    } else if d == 6 {
        '6'
    } else if d == 7 {
        '7'
    } else if d == 8 {
        '8'
    } else {
        '9'
    }
}

/// Canonical decimal text of a non-negative integer: no sign, no
/// leading zeros (except for zero itself).
pub open spec fn dec_text(n: int) -> Seq<char>
    decreases n,
{
    if n < 10 {
        seq![dec_digit_char(n)]
    } else {
        dec_text(n / 10).push(dec_digit_char(n % 10))
    }
}

/// Canonical decimal text of any integer: a `-` sign ahead of the
/// digits when the value is negative.
pub open spec fn dec_text_signed(v: int) -> Seq<char> {
    if v < 0 {
        seq!['-'].add(dec_text(-v))
    } else {
        dec_text(v)
    }
}

fn digit_str(d: u64) -> (r: &'static str)
    requires
        d <= 9,
    ensures
        r@ =~= seq![dec_digit_char(d as int)],
        r.is_ascii(),
{
    proof {
        reveal_strlit("0");
        reveal_strlit("1");
        reveal_strlit("2");
        reveal_strlit("3");
        reveal_strlit("4");
        reveal_strlit("5");
        reveal_strlit("6");
        reveal_strlit("7");
        reveal_strlit("8");
        reveal_strlit("9");
    }
    match d {
        0 => "0",
        1 => "1",
        2 => "2",
        3 => "3",
        4 => "4",
        5 => "5",
        6 => "6",
        7 => "7",
        8 => "8",
        _ => "9",
    }
}

/// Canonical decimal text of a `u64`.
pub fn format_u64(n: u64) -> (r: String)
    ensures
        r@ == dec_text(n as int),
    decreases n,
{
    if n < 10 {
        String::from_str(digit_str(n))
    } else {
        let mut prefix = format_u64(n / 10);
        prefix.append(digit_str(n % 10));
        proof {
            assert(prefix@ =~= dec_text(n as int));
        }
        prefix
    }
}

/// Canonical decimal text of a `usize`.
pub fn format_usize(n: usize) -> (r: String)
    ensures
        r@ == dec_text(n as int),
{
    format_u64(n as u64)
}

/// Canonical decimal text of an `i64`, sign included.
pub fn format_i64(v: i64) -> (r: String)
    ensures
        r@ == dec_text_signed(v as int),
{
    if v >= 0 {
        format_u64(v as u64)
    } else {
        proof {
            reveal_strlit("-");
        }
        let mut out = String::from_str("-");
        let magnitude: u64 = if v == i64::MIN {
            9223372036854775808u64
        } else {
            (-v) as u64
        };
        let digits = format_u64(magnitude);
        out.append(digits.as_str());
        proof {
            assert(out@ =~= dec_text_signed(v as int));
        }
        out
    }
}

proof fn lemma_digit_char_val(d: int)
    requires
        0 <= d <= 9,
    ensures
        digit_val(dec_digit_char(d)) == d,
        is_dec_digit(dec_digit_char(d)),
{
    assert(('0' as int) == 48);
    assert(('1' as int) == 49);
    assert(('2' as int) == 50);
    assert(('3' as int) == 51);
    assert(('4' as int) == 52);
    assert(('5' as int) == 53);
    assert(('6' as int) == 54);
    assert(('7' as int) == 55);
    assert(('8' as int) == 56);
    assert(('9' as int) == 57);
}

/// The digits of canonical decimal text denote the number back:
/// formatting, then reading the digit string, round-trips.
pub proof fn lemma_dec_text_val(n: int)
    requires
        n >= 0,
    ensures
        all_digits(dec_text(n)),
        dec_text(n).len() >= 1,
        digits_val(dec_text(n)) == n,
    decreases n,
{
    if n < 10 {
        lemma_digit_char_val(n);
        assert(dec_text(n) =~= seq![dec_digit_char(n)]);
        assert(dec_text(n).drop_last() =~= Seq::<char>::empty());
        assert(digits_val(dec_text(n)) == digits_val(Seq::<char>::empty()) * 10 + digit_val(
            dec_digit_char(n),
        ));
    } else {
        lemma_dec_text_val(n / 10);
        lemma_digit_char_val(n % 10);
        assert(dec_text(n).drop_last() =~= dec_text(n / 10));
        assert(dec_text(n).last() == dec_digit_char(n % 10));
        assert(digits_val(dec_text(n)) == digits_val(dec_text(n / 10)) * 10 + digit_val(
            dec_digit_char(n % 10),
        ));
        assert(n / 10 * 10 + n % 10 == n) by (nonlinear_arith)
            requires
                n >= 10,
        ;
    }
}

/// Round trip of any integer through its canonical text: reading the
/// text of `v` as an integer literal yields `v` again.
pub proof fn lemma_int_literal_round_trip(v: int)
    ensures
        int_literal(dec_text_signed(v)) == Some(v),
{
    if v < 0 {
        lemma_dec_text_val(-v);
        let s = dec_text_signed(v);
        assert(s.skip(1) =~= dec_text(-v));
        assert(s[0] == '-');
        assert(int_literal(s) == Some(-digits_val(dec_text(-v))));
    } else {
        lemma_dec_text_val(v);
        let s = dec_text_signed(v);
        assert(s[0] != '-' && s[0] != '+') by {
            assert(is_dec_digit(s[0]));
        }
        assert(int_literal(s) == Some(digits_val(s)));
    }
}

} // verus!
