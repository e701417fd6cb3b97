//! The text form of a corner list: `x,y` tokens separated by whitespace.
//!
//! This module says what a text denotes and what text a point list is written
//! as, and proves that reading back what was written gives the list again.

use vstd::prelude::*;
use crate::decimal::{
    decimal_text, decimal_value, is_digit, lemma_decimal_round_trip, lemma_decimal_text_chars,
    lemma_decimal_value_range,
};
use crate::types::Point;

verus! {

/// The characters that separate tokens: those with the Unicode property
/// `White_Space`.
pub open spec fn is_space(c: char) -> bool {
    ||| c == ' '
    ||| ('\u{9}' <= c && c <= '\u{d}')
    ||| c == '\u{85}'
    ||| c == '\u{a0}'
    ||| c == '\u{1680}'
    ||| ('\u{2000}' <= c && c <= '\u{200a}')
    ||| c == '\u{2028}'
    ||| c == '\u{2029}'
    ||| c == '\u{202f}'
    ||| c == '\u{205f}'
    ||| c == '\u{3000}'
}

/// Length of the longest prefix without a separator.
pub open spec fn token_len(s: Seq<char>) -> nat
    decreases s.len(),
{
    if s.len() > 0 && !is_space(s[0]) {
        1 + token_len(s.skip(1))
    } else {
        0
    }
}

/// Length of the longest prefix without a comma.
pub open spec fn field_len(s: Seq<char>) -> nat
    decreases s.len(),
{
    if s.len() > 0 && s[0] != ',' {
        1 + field_len(s.skip(1))
    } else {
        0
    }
}

pub open spec fn comma_free(s: Seq<char>) -> bool {
    forall|i: int| 0 <= i < s.len() ==> #[trigger] s[i] != ','
}

/// The point that a token denotes: the token holds exactly one comma, and
/// the text before it and the text after it are numerals of the coordinate
/// space.
pub open spec fn parse_pair(token: Seq<char>) -> Option<Point> {
    let k = field_len(token) as int;
    if k < token.len() && comma_free(token.skip(k + 1)) {
        match (decimal_value(token.take(k)), decimal_value(token.skip(k + 1))) {
            (Some(x), Some(y)) => Some(Point { x: x as i64, y: y as i64 }),
            _ => None,
        }
    } else {
        None
    }
}

/// The longest prefix without a separator ends inside the text, holds no
/// separator, and is followed by a separator or by the end of the text.
pub proof fn lemma_token_len_bounds(s: Seq<char>)
    ensures
        token_len(s) <= s.len(),
        forall|i: int| 0 <= i < token_len(s) ==> !is_space(#[trigger] s[i]),
        token_len(s) == s.len() || is_space(s[token_len(s) as int]),
    decreases s.len(),
{
    if s.len() > 0 && !is_space(s[0]) {
        let rest = s.skip(1);
        lemma_token_len_bounds(rest);
        assert forall|i: int| 0 <= i < token_len(s) implies !is_space(#[trigger] s[i]) by {
            if i > 0 {
                assert(s[i] == rest[i - 1]);
            }
        }
        if token_len(s) < s.len() {
            assert(s[token_len(s) as int] == rest[token_len(rest) as int]);
        }
    }
}

/// The points that a text denotes: its tokens are the longest runs without
/// a separator, and each token that denotes a point contributes it, in the
/// order of the text; any other token contributes nothing.
pub open spec fn decode_points(s: Seq<char>) -> Seq<Point>
    decreases s.len(),
{
    if s.len() == 0 {
        Seq::<Point>::empty()
    } else if is_space(s[0]) {
        decode_points(s.skip(1))
    } else {
        let n = token_len(s) as int;
        proof {
            lemma_token_len_bounds(s);
        }
        let rest = decode_points(s.skip(n));
        match parse_pair(s.take(n)) {
            Some(p) => seq![p] + rest,
            None => rest,
        }
    }
}

/// The token of one point: its two coordinates as shortest numerals with a
/// comma between them.
pub open spec fn pair_text(p: Point) -> Seq<char> {
    decimal_text(p.x as int) + seq![','] + decimal_text(p.y as int)
}

/// The text of a point list: the tokens of its points in order, with one
/// blank between neighbours.
pub open spec fn encode_points(points: Seq<Point>) -> Seq<char>
    decreases points.len(),
{
    if points.len() == 0 {
        Seq::<char>::empty()
    } else if points.len() == 1 {
        pair_text(points[0])
    } else {
        encode_points(points.drop_last()) + seq![' '] + pair_text(points.last())
    }
}

pub open spec fn all_in_range(points: Seq<Point>) -> bool {
    forall|i: int| 0 <= i < points.len() ==> (#[trigger] points[i]).in_range()
}

/// A prefix of length `k` without a separator that ends at the end of the
/// text or before a separator is the longest one.
pub proof fn lemma_token_len(s: Seq<char>, k: int)
    requires
        0 <= k <= s.len(),
        forall|i: int| 0 <= i < k ==> !is_space(#[trigger] s[i]),
        k == s.len() || is_space(s[k]),
    ensures
        token_len(s) == k,
    decreases k,
{
    if k > 0 {
        let rest = s.skip(1);
        assert forall|i: int| 0 <= i < k - 1 implies !is_space(#[trigger] rest[i]) by {
            assert(rest[i] == s[i + 1]);
        }
        lemma_token_len(rest, k - 1);
    }
}

/// A prefix of length `k` without a comma that ends at the end of the text
/// or before a comma is the longest one.
pub proof fn lemma_field_len(s: Seq<char>, k: int)
    requires
        0 <= k <= s.len(),
        forall|i: int| 0 <= i < k ==> #[trigger] s[i] != ',',
        k == s.len() || s[k] == ',',
    ensures
        field_len(s) == k,
    decreases k,
{
    if k > 0 {
        let rest = s.skip(1);
        assert forall|i: int| 0 <= i < k - 1 implies #[trigger] rest[i] != ',' by {
            assert(rest[i] == s[i + 1]);
        }
        lemma_field_len(rest, k - 1);
    }
}

/// Every point that a text denotes lies inside the coordinate space.
pub proof fn lemma_decoded_in_range(s: Seq<char>)
    ensures
        all_in_range(decode_points(s)),
    decreases s.len(),
{
    if s.len() == 0 {
    } else if is_space(s[0]) {
        lemma_decoded_in_range(s.skip(1));
    } else {
        let n = token_len(s) as int;
        lemma_token_len_bounds(s);
        lemma_decoded_in_range(s.skip(n));
        let token = s.take(n);
        let rest = decode_points(s.skip(n));
        match parse_pair(token) {
            Some(p) => {
                let k = field_len(token) as int;
                lemma_decimal_value_range(token.take(k));
                lemma_decimal_value_range(token.skip(k + 1));
                assert forall|i: int| 0 <= i < decode_points(s).len() implies (
                #[trigger] decode_points(s)[i]).in_range() by {
                    if i > 0 {
                        assert(decode_points(s)[i] == rest[i - 1]);
                    }
                }
            },
            None => {},
        }
    }
}

/// A text without a separator is one token.
pub proof fn lemma_decode_single_token(t: Seq<char>)
    requires
        t.len() > 0,
        forall|i: int| 0 <= i < t.len() ==> !is_space(#[trigger] t[i]),
    ensures
        decode_points(t) == match parse_pair(t) {
            Some(p) => seq![p],
            None => Seq::<Point>::empty(),
        },
{
    lemma_token_len(t, t.len() as int);
    assert(t.take(t.len() as int) =~= t);
    assert(t.skip(t.len() as int).len() == 0);
    assert(decode_points(t.skip(t.len() as int)) =~= Seq::<Point>::empty());
    match parse_pair(t) {
        Some(p) => {
            assert(seq![p] + Seq::<Point>::empty() =~= seq![p]);
        },
        None => {},
    }
}

/// Two texts joined by a blank denote the points of the first followed by
/// the points of the second.
pub proof fn lemma_decode_joined(a: Seq<char>, b: Seq<char>)
    ensures
        decode_points(a + seq![' '] + b) == decode_points(a) + decode_points(b),
    decreases a.len(),
{
    let s = a + seq![' '] + b;
    if a.len() == 0 {
        assert(s.skip(1) =~= b);
        assert(decode_points(a) + decode_points(b) =~= decode_points(b));
    } else if is_space(a[0]) {
        assert(s[0] == a[0]);
        assert(s.skip(1) =~= a.skip(1) + seq![' '] + b);
        lemma_decode_joined(a.skip(1), b);
    } else {
        assert(s[0] == a[0]);
        let n = token_len(a) as int;
        lemma_token_len_bounds(a);
        assert forall|i: int| 0 <= i < n implies !is_space(#[trigger] s[i]) by {
            assert(s[i] == a[i]);
        }
        if n < a.len() {
            assert(s[n] == a[n]);
        } else {
            assert(s[n] == ' ');
        }
        lemma_token_len(s, n);
        assert(s.take(n) =~= a.take(n));
        assert(s.skip(n) =~= a.skip(n) + seq![' '] + b);
        lemma_decode_joined(a.skip(n), b);
        let rest_a = decode_points(a.skip(n));
        let tail = decode_points(b);
        match parse_pair(a.take(n)) {
            Some(p) => {
                assert(seq![p] + (rest_a + tail) =~= (seq![p] + rest_a) + tail);
            },
            None => {},
        }
    }
}

/// The token written for a point inside the coordinate space holds no
/// separator and denotes that point.
pub proof fn lemma_pair_round_trip(p: Point)
    requires
        p.in_range(),
    ensures
        pair_text(p).len() > 0,
        forall|i: int| 0 <= i < pair_text(p).len() ==> !is_space(#[trigger] pair_text(p)[i]),
        parse_pair(pair_text(p)) == Some(p),
{
    let xs = decimal_text(p.x as int);
    let ys = decimal_text(p.y as int);
    let t = pair_text(p);
    lemma_decimal_text_chars(p.x as int);
    lemma_decimal_text_chars(p.y as int);
    lemma_decimal_round_trip(p.x as int);
    lemma_decimal_round_trip(p.y as int);
    let k = xs.len() as int;
    assert forall|i: int| 0 <= i < t.len() implies !is_space(#[trigger] t[i]) by {
        if i < k {
            assert(t[i] == xs[i]);
        } else if i > k {
            assert(t[i] == ys[i - k - 1]);
        }
    }
    assert forall|i: int| 0 <= i < k implies #[trigger] t[i] != ',' by {
        assert(t[i] == xs[i]);
    }
    assert(t[k] == ',');
    lemma_field_len(t, k);
    assert(t.take(k) =~= xs);
    assert(t.skip(k + 1) =~= ys);
    assert forall|i: int| 0 <= i < ys.len() implies #[trigger] ys[i] != ',' by {
        assert(is_digit(ys[i]) || ys[i] == '-' || ys[i] == '.');
    }
}

/// Reading back the text written for a point list gives the list again, for
/// every list of points inside the coordinate space.
pub proof fn lemma_decode_encode(points: Seq<Point>)
    requires
        all_in_range(points),
    ensures
        decode_points(encode_points(points)) == points,
    decreases points.len(),
{
    if points.len() == 0 {
        assert(decode_points(encode_points(points)) =~= points);
    } else if points.len() == 1 {
        lemma_pair_round_trip(points[0]);
        lemma_decode_single_token(pair_text(points[0]));
        assert(seq![points[0]] =~= points);
    } else {
        let init = points.drop_last();
        let last = points.last();
        assert(all_in_range(init)) by {
            assert forall|i: int| 0 <= i < init.len() implies (#[trigger] init[i]).in_range() by {
                assert(init[i] == points[i]);
            }
        }
        lemma_decode_encode(init);
        lemma_pair_round_trip(last);
        lemma_decode_single_token(pair_text(last));
        lemma_decode_joined(encode_points(init), pair_text(last));
        assert(init + seq![last] =~= points);
    }
}

/// Writing the points that a text denotes gives a text that denotes the
/// same points.
pub proof fn lemma_reencoded_text_same_points(s: Seq<char>)
    ensures
        decode_points(encode_points(decode_points(s))) == decode_points(s),
{
    lemma_decoded_in_range(s);
    lemma_decode_encode(decode_points(s));
}

} // verus!
