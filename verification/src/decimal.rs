//! Decimal text of fixed-point numbers.
//!
//! A numeral is an optional sign, digits, and an optional point followed by
//! digits, with at least one digit in all: `12`, `-0.5`, `+7.25`, `.5`, `3.`.
//! Its value counts hundredths; a third fraction digit of five or more rounds
//! the magnitude up, and further fraction digits are not looked at.

use vstd::prelude::*;
use crate::types::COORD_MAX;

verus! {

pub open spec fn is_digit(c: char) -> bool {
    '0' <= c && c <= '9'
}

/// The number that a digit stands for.
pub open spec fn digit_value(c: char) -> int {
    c as int - 48
}

/// The digit that stands for a number below ten.
pub open spec fn digit_char(d: int) -> char {
    ((d + 48) as u8) as char
}

pub open spec fn all_digits(s: Seq<char>) -> bool {
    forall|i: int| 0 <= i < s.len() ==> is_digit(#[trigger] s[i])
}

/// The number that a digit string denotes in base ten; the empty string
/// denotes zero.
pub open spec fn digits_value(s: Seq<char>) -> nat
    decreases s.len(),
{
    if s.len() == 0 {
        0
    } else {
        (digits_value(s.drop_last()) * 10 + digit_value(s.last())) as nat
    }
}

/// Length of the longest prefix made of digits.
pub open spec fn digit_prefix_len(s: Seq<char>) -> nat
    decreases s.len(),
{
    if s.len() > 0 && is_digit(s[0]) {
        1 + digit_prefix_len(s.skip(1))
    } else {
        0
    }
}

/// Number of sign characters at the start: zero or one.
pub open spec fn sign_len(s: Seq<char>) -> nat {
    if s.len() > 0 && (s[0] == '-' || s[0] == '+') {
        1
    } else {
        0
    }
}

/// The `i`-th fraction digit, zero where the fraction is shorter.
pub open spec fn fraction_digit(f: Seq<char>, i: int) -> int {
    if 0 <= i < f.len() {
        digit_value(f[i])
    } else {
        0
    }
}

/// Hundredths that a fraction denotes, the third digit rounding half up.
pub open spec fn fraction_hundredths(f: Seq<char>) -> int {
    10 * fraction_digit(f, 0) + fraction_digit(f, 1) + if fraction_digit(f, 2) >= 5 {
        1int
    } else {
        0int
    }
}

/// An unsigned numeral is well formed: digits, then nothing or a point and
/// digits, with a digit somewhere.
pub open spec fn unsigned_well_formed(body: Seq<char>) -> bool {
    let n = digit_prefix_len(body) as int;
    if n == body.len() {
        n >= 1
    } else {
        &&& body[n] == '.'
        &&& all_digits(body.skip(n + 1))
        &&& body.len() >= 2
    }
}

/// Hundredths that a well-formed unsigned numeral denotes.
pub open spec fn unsigned_hundredths(body: Seq<char>) -> int {
    let n = digit_prefix_len(body) as int;
    if n == body.len() {
        (digits_value(body) * 100) as int
    } else {
        digits_value(body.take(n)) * 100 + fraction_hundredths(body.skip(n + 1))
    }
}

/// The value of a numeral in hundredths, where the text is a well-formed
/// numeral whose magnitude does not exceed `COORD_MAX`.
pub open spec fn decimal_value(s: Seq<char>) -> Option<int> {
    let body = s.skip(sign_len(s) as int);
    let magnitude = unsigned_hundredths(body);
    if unsigned_well_formed(body) && magnitude <= COORD_MAX {
        if s[0] == '-' {
            Some(-magnitude)
        } else {
            Some(magnitude)
        }
    } else {
        None
    }
}

/// The digits of a number in base ten, without leading zeros.
pub open spec fn nat_digits(n: nat) -> Seq<char>
    decreases n,
{
    if n < 10 {
        seq![digit_char(n as int)]
    } else {
        nat_digits(n / 10).push(digit_char((n % 10) as int))
    }
}

/// The fraction part of the shortest numeral for `f` hundredths, `f` below a
/// hundred: nothing for zero, else a point and one or two digits.
pub open spec fn fraction_text(f: int) -> Seq<char> {
    if f == 0 {
        Seq::<char>::empty()
    } else if f % 10 == 0 {
        seq!['.', digit_char(f / 10)]
    } else {
        seq!['.', digit_char(f / 10), digit_char(f % 10)]
    }
}

/// The shortest numeral for `v` hundredths: a minus sign where `v` is
/// negative, the whole units, and the fraction without trailing zeros.
pub open spec fn decimal_text(v: int) -> Seq<char> {
    let m = if v < 0 {
        -v
    } else {
        v
    };
    let sign = if v < 0 {
        seq!['-']
    } else {
        Seq::<char>::empty()
    };
    sign + nat_digits((m / 100) as nat) + fraction_text(m % 100)
}


/// Largest count of whole units whose hundredths stay within `COORD_MAX`.
pub const UNITS_MAX: u64 = 10_000_000_000;

/// A digit prefix of length `k` that ends at the end of the text or before a
/// character that is no digit is the longest one.
pub proof fn lemma_digit_prefix_len(s: Seq<char>, k: int)
    requires
        0 <= k <= s.len(),
        all_digits(s.take(k)),
        k == s.len() || !is_digit(s[k]),
    ensures
        digit_prefix_len(s) == k,
    decreases k,
{
    if k > 0 {
        assert(s.take(k)[0] == s[0]);
        let rest = s.skip(1);
        assert forall|i: int| 0 <= i < rest.take(k - 1).len() implies is_digit(
            #[trigger] rest.take(k - 1)[i],
        ) by {
            assert(rest.take(k - 1)[i] == s.take(k)[i + 1]);
        }
        lemma_digit_prefix_len(rest, k - 1);
    }
}

/// What `nat_digits` writes is a string of at least one digit that denotes
/// the number.
pub proof fn lemma_nat_digits(n: nat)
    ensures
        nat_digits(n).len() >= 1,
        all_digits(nat_digits(n)),
        digits_value(nat_digits(n)) == n,
    decreases n,
{
    if n < 10 {
        let s = nat_digits(n);
        assert(s.drop_last().len() == 0);
        assert(digits_value(s.drop_last()) == 0);
        assert(s.last() == digit_char(n as int));
    } else {
        lemma_nat_digits(n / 10);
        let init = nat_digits(n / 10);
        let s = nat_digits(n);
        assert(s.drop_last() =~= init);
        assert(s.last() == digit_char((n % 10) as int));
        assert forall|i: int| 0 <= i < s.len() implies is_digit(#[trigger] s[i]) by {
            if i < init.len() {
                assert(s[i] == init[i]);
            }
        }
    }
}

/// A numeral written by `decimal_text` holds digits, and at most a leading
/// minus sign and one point.
pub proof fn lemma_decimal_text_chars(v: int)
    ensures
        decimal_text(v).len() >= 1,
        forall|i: int|
            0 <= i < decimal_text(v).len() ==> {
                let c = #[trigger] decimal_text(v)[i];
                is_digit(c) || c == '-' || c == '.'
            },
{
    let m = if v < 0 {
        -v
    } else {
        v
    };
    lemma_nat_digits((m / 100) as nat);
    let sign = if v < 0 {
        seq!['-']
    } else {
        Seq::<char>::empty()
    };
    let whole = nat_digits((m / 100) as nat);
    let frac = fraction_text(m % 100);
    let t = decimal_text(v);
    assert(t == sign + whole + frac);
    assert forall|i: int| 0 <= i < t.len() implies {
        let c = #[trigger] t[i];
        is_digit(c) || c == '-' || c == '.'
    } by {
        if i < sign.len() {
            assert(t[i] == '-');
        } else if i < sign.len() + whole.len() {
            assert(t[i] == whole[i - sign.len()]);
        } else {
            assert(t[i] == frac[i - sign.len() - whole.len()]);
        }
    }
}

/// Reading back what `decimal_text` wrote gives the number again, for every
/// number inside the coordinate space.
pub proof fn lemma_decimal_round_trip(v: int)
    requires
        -COORD_MAX <= v <= COORD_MAX,
    ensures
        decimal_value(decimal_text(v)) == Some(v),
{
    let m = if v < 0 {
        -v
    } else {
        v
    };
    let q = (m / 100) as nat;
    let r = m % 100;
    lemma_nat_digits(q);
    let sign = if v < 0 {
        seq!['-']
    } else {
        Seq::<char>::empty()
    };
    let whole = nat_digits(q);
    let frac = fraction_text(r);
    let t = decimal_text(v);
    assert(t == sign + whole + frac);
    if v < 0 {
        assert(t[0] == '-');
    } else {
        assert(t[0] == whole[0]);
        assert(is_digit(whole[0]));
    }
    let body = t.skip(sign_len(t) as int);
    assert(body =~= whole + frac);
    let n = whole.len() as int;
    assert(body.take(n) =~= whole);
    if frac.len() > 0 {
        assert(body[n] == frac[0]);
    }
    lemma_digit_prefix_len(body, n);
    if frac.len() == 0 {
        assert(body =~= whole);
    } else {
        let digits = body.skip(n + 1);
        assert(digits =~= frac.skip(1));
        if r % 10 == 0 {
            assert(digits =~= seq![digit_char(r / 10)]);
        } else {
            assert(digits =~= seq![digit_char(r / 10), digit_char(r % 10)]);
        }
    }
}

/// A value that a numeral denotes lies inside the coordinate space.
pub proof fn lemma_decimal_value_range(s: Seq<char>)
    ensures
        decimal_value(s) matches Some(v) ==> -COORD_MAX <= v <= COORD_MAX,
{
    let body = s.skip(sign_len(s) as int);
    let n = digit_prefix_len(body) as int;
    if unsigned_well_formed(body) && n < body.len() {
        let frac = body.skip(n + 1);
        assert(forall|i: int| 0 <= i < frac.len() ==> is_digit(#[trigger] frac[i]));
        assert(fraction_digit(frac, 0) >= 0);
        assert(fraction_digit(frac, 1) >= 0);
    }
}

fn is_digit_char(c: char) -> (b: bool)
    ensures
        b == is_digit(c),
{
    '0' <= c && c <= '9'
}

fn digit_of(c: char) -> (d: u64)
    requires
        is_digit(c),
    ensures
        d == digit_value(c),
        d <= 9,
{
    (c as u32 - 48) as u64
}

/// Reads the numeral that `chars` holds from `lo` up to `hi`.
///
/// Gives the value in hundredths, and nothing where the text is no
/// well-formed numeral or its magnitude exceeds `COORD_MAX`.
pub fn parse_decimal(chars: &Vec<char>, lo: usize, hi: usize) -> (r: Option<i64>)
    requires
        lo <= hi <= chars.len(),
    ensures
        r matches Some(v) ==> decimal_value(chars@.subrange(lo as int, hi as int)) == Some(
            v as int,
        ),
        r is None ==> decimal_value(chars@.subrange(lo as int, hi as int)) is None,
{
    let ghost s = chars@.subrange(lo as int, hi as int);
    if lo == hi {
        proof {
            assert(s.skip(0) =~= s);
        }
        return None;
    }
    let first = chars[lo];
    let negative = first == '-';
    let start: usize = if first == '-' || first == '+' {
        lo + 1
    } else {
        lo
    };
    let ghost body = chars@.subrange(start as int, hi as int);
    proof {
        assert(s[0] == first);
        assert(s.skip(sign_len(s) as int) =~= body);
        assert(s.skip(sign_len(s) as int) == body);
    }
    let mut i: usize = start;
    let mut units: u64 = 0;
    let mut too_large = false;
    while i < hi && is_digit_char(chars[i])
        invariant
            start <= i <= hi <= chars.len(),
            body == chars@.subrange(start as int, hi as int),
            all_digits(body.take(i - start)),
            !too_large ==> units == digits_value(body.take(i - start)) && units <= UNITS_MAX,
            too_large ==> digits_value(body.take(i - start)) > UNITS_MAX,
        decreases hi - i,
    {
        let d = digit_of(chars[i]);
        proof {
            let prev = body.take(i - start);
            let next = body.take(i - start + 1);
            assert(next.drop_last() =~= prev);
            assert(next.last() == chars@[i as int]);
            assert forall|j: int| 0 <= j < next.len() implies is_digit(#[trigger] next[j]) by {
                if j < prev.len() {
                    assert(next[j] == prev[j]);
                }
            }
        }
        if !too_large {
            units = units * 10 + d;
            if units > UNITS_MAX {
                too_large = true;
            }
        }
        i += 1;
    }
    let ghost n = (i - start) as int;
    proof {
        if i < hi {
            assert(body[n] == chars@[i as int]);
        }
        lemma_digit_prefix_len(body, n);
    }
    let mut hundredths: u64 = 0;
    if i == hi {
        proof {
            assert(body.take(n) =~= body);
        }
        if i == start {
            return None;
        }
    } else {
        if chars[i] != '.' {
            return None;
        }
        let ghost frac = body.skip(n + 1);
        proof {
            assert(frac =~= chars@.subrange(i + 1, hi as int));
        }
        let mut j: usize = i + 1;
        let mut tenths: u64 = 0;
        let mut cents: u64 = 0;
        let mut third: u64 = 0;
        while j < hi
            invariant
                i < j <= hi <= chars.len(),
                frac == chars@.subrange(i + 1, hi as int),
                s == chars@.subrange(lo as int, hi as int),
                body == s.skip(sign_len(s) as int),
                digit_prefix_len(body) == n < body.len(),
                frac == body.skip(n + 1),
                all_digits(frac.take(j - i - 1)),
                tenths == if j - i - 1 > 0 {
                    digit_value(frac[0])
                } else {
                    0
                },
                cents == if j - i - 1 > 1 {
                    digit_value(frac[1])
                } else {
                    0
                },
                third == if j - i - 1 > 2 {
                    digit_value(frac[2])
                } else {
                    0
                },
                tenths <= 9,
                cents <= 9,
                third <= 9,
            decreases hi - j,
        {
            let c = chars[j];
            proof {
                assert(frac[j - i - 1] == c);
            }
            if !is_digit_char(c) {
                proof {
                    assert(!is_digit(frac[j - i - 1]));
                }
                return None;
            }
            let d = digit_of(c);
            if j == i + 1 {
                tenths = d;
            } else if j == i + 2 {
                cents = d;
            } else if j == i + 3 {
                third = d;
            }
            proof {
                let prev = frac.take(j - i - 1);
                let next = frac.take(j - i);
                assert forall|k: int| 0 <= k < next.len() implies is_digit(#[trigger] next[k]) by {
                    if k < prev.len() {
                        assert(next[k] == prev[k]);
                    }
                }
            }
            j += 1;
        }
        proof {
            assert(frac.take(j - i - 1) =~= frac);
        }
        if hi - start < 2 {
            return None;
        }
        hundredths = 10 * tenths + cents + if third >= 5 {
            1
        } else {
            0
        };
    }
    if too_large {
        return None;
    }
    let magnitude: u64 = units * 100 + hundredths;
    if magnitude > COORD_MAX as u64 {
        return None;
    }
    if negative {
        Some(-(magnitude as i64))
    } else {
        Some(magnitude as i64)
    }
}

fn digit_text(d: u64) -> (s: &'static str)
    requires
        d < 10,
    ensures
        s@ == seq![digit_char(d as int)],
{
    let s = match d {
        0 => "0",
        1 => "1",
        2 => "2",
        3 => "3",
        4 => "4",
        5 => "5",
        6 => "6",
        7 => "7",
        8 => "8",
        _ => "9",
    };
    proof {
        reveal_strlit("0");
        reveal_strlit("1");
        reveal_strlit("2");
        reveal_strlit("3");
        reveal_strlit("4");
        reveal_strlit("5");
        reveal_strlit("6");
        reveal_strlit("7");
        reveal_strlit("8");
        reveal_strlit("9");
        assert(s@ =~= seq![digit_char(d as int)]);
    }
    s
}

fn append_nat(out: &mut String, n: u64)
    ensures
        final(out)@ == old(out)@ + nat_digits(n as nat),
    decreases n,
{
    if n >= 10 {
        append_nat(out, n / 10);
    }
    out.append(digit_text(n % 10));
    proof {
        assert(out@ =~= old(out)@ + nat_digits(n as nat));
    }
}

/// Writes `v` hundredths as the shortest numeral: `15_000` gives `150`,
/// `-1_550` gives `-15.5`, `5` gives `0.05`.
pub fn format_decimal(v: i64) -> (s: String)
    ensures
        s@ == decimal_text(v as int),
{
    let mut out = String::new();
    let m: u64 = if v < 0 {
        out.append("-");
        (-(v as i128)) as u64
    } else {
        v as u64
    };
    append_nat(&mut out, m / 100);
    let f = m % 100;
    if f != 0 {
        out.append(".");
        out.append(digit_text(f / 10));
        if f % 10 != 0 {
            out.append(digit_text(f % 10));
        }
    }
    proof {
        reveal_strlit("-");
        reveal_strlit(".");
        assert(out@ =~= decimal_text(v as int));
    }
    out
}

} // verus!
