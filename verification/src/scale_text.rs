//! The textual form of a scale factor.
//!
//! A scale is carried as decimal text. A field counts as a valid scale
//! exactly when `f64::from_str` would accept it, and std documents that
//! grammar precisely: an optional sign, then `inf`, `infinity` or `nan`
//! (case-insensitively), or a decimal number with at least one digit,
//! an optional fraction and an optional exponent.
use vstd::prelude::*;

use crate::text::{
    ascii_lower_char, chars_eq, spec_ascii_lower, spec_split, split_chars, str_to_chars,
};

verus! {

/// Whether `c` is a decimal digit.
pub open spec fn spec_is_digit(c: char) -> bool {
    '0' <= c && c <= '9'
}

/// Whether every character of `s` is a decimal digit.
pub open spec fn spec_all_digits(s: Seq<char>) -> bool {
    forall|i: int| 0 <= i < s.len() ==> spec_is_digit(s[i])
}

/// The sequence without one leading sign character.
pub open spec fn spec_strip_sign(s: Seq<char>) -> Seq<char> {
    if s.len() > 0 && (s[0] == '+' || s[0] == '-') {
        s.drop_first()
    } else {
        s
    }
}

/// A mantissa: digits, with at most one point and at least one digit.
pub open spec fn spec_is_mantissa(m: Seq<char>) -> bool {
    let qs = spec_split(m, '.');
    if qs.len() == 1 {
        qs[0].len() > 0 && spec_all_digits(qs[0])
    } else if qs.len() == 2 {
        spec_all_digits(qs[0]) && spec_all_digits(qs[1]) && (qs[0].len() > 0 || qs[1].len() > 0)
    } else {
        false
    }
}

/// An exponent: an optional sign followed by at least one digit.
pub open spec fn spec_is_exponent(e: Seq<char>) -> bool {
    let b = spec_strip_sign(e);
    b.len() > 0 && spec_all_digits(b)
}

/// A number: a mantissa, optionally followed by `e` and an exponent.
/// `b` is already lowercased and sign-stripped.
pub open spec fn spec_is_number(b: Seq<char>) -> bool {
    let ps = spec_split(b, 'e');
    if ps.len() == 1 {
        spec_is_mantissa(ps[0])
    } else if ps.len() == 2 {
        spec_is_mantissa(ps[0]) && spec_is_exponent(ps[1])
    } else {
        false
    }
}

/// Whether `s` is a valid textual scale: exactly the strings that parse
/// as a 64-bit float.
pub open spec fn spec_is_scale_text(s: Seq<char>) -> bool {
    let b = spec_ascii_lower(spec_strip_sign(s));
    b == "inf"@ || b == "infinity"@ || b == "nan"@ || spec_is_number(b)
}

fn all_digits_chars(v: &Vec<char>) -> (r: bool)
    ensures
        r == spec_all_digits(v@),
{
    let mut i: usize = 0;
    while i < v.len()
        invariant
            0 <= i <= v@.len(),
            forall|k: int| 0 <= k < i ==> spec_is_digit(v@[k]),
        decreases v@.len() - i,
    {
        let c = v[i];
        if !('0' <= c && c <= '9') {
            return false;
        }
        i = i + 1;
    }
    true
}

fn is_mantissa_chars(m: &Vec<char>) -> (r: bool)
    ensures
        r == spec_is_mantissa(m@),
{
    let qs = split_chars(m, '.');
    let ghost qv = qs@.map_values(|p: Vec<char>| p@);
    if qs.len() == 1 {
        let q0 = &qs[0];
        assert(q0@ == qv[0]);
        q0.len() > 0 && all_digits_chars(q0)
    } else if qs.len() == 2 {
        let r = all_digits_chars(&qs[0]) && all_digits_chars(&qs[1]) && (qs[0].len() > 0
            || qs[1].len() > 0);
        assert(qs@[0]@ == qv[0] && qs@[1]@ == qv[1]);
        r
    } else {
        false
    }
}

fn is_exponent_chars(e: &Vec<char>) -> (r: bool)
    ensures
        r == spec_is_exponent(e@),
{
    let mut b: Vec<char> = Vec::new();
    let start: usize = if e.len() > 0 && (e[0] == '+' || e[0] == '-') {
        1
    } else {
        0
    };
    let mut i: usize = start;
    while i < e.len()
        invariant
            start <= i <= e@.len(),
            b@ == e@.subrange(start as int, i as int),
        decreases e@.len() - i,
    {
        b.push(e[i]);
        assert(b@ == e@.subrange(start as int, i + 1 as int));
        i = i + 1;
    }
    proof {
        assert(b@ == spec_strip_sign(e@));
    }
    b.len() > 0 && all_digits_chars(&b)
}

/// Whether the characters form a valid textual scale.
pub fn is_scale_text(s: &Vec<char>) -> (r: bool)
    ensures
        r == spec_is_scale_text(s@),
{
    let mut low: Vec<char> = Vec::new();
    let start: usize = if s.len() > 0 && (s[0] == '+' || s[0] == '-') {
        1
    } else {
        0
    };
    let mut i: usize = start;
    while i < s.len()
        invariant
            start <= i <= s@.len(),
            start == 1 ==> s@.len() > 0 && (s@[0] == '+' || s@[0] == '-'),
            start == 0 ==> !(s@.len() > 0 && (s@[0] == '+' || s@[0] == '-')),
            start <= 1,
            low@ == spec_strip_sign(s@).take(i - start).map_values(
                |c: char| crate::text::spec_ascii_lower_char(c),
            ),
        decreases s@.len() - i,
    {
        low.push(ascii_lower_char(s[i]));
        proof {
            let strip = spec_strip_sign(s@);
            assert(strip.len() == s@.len() - start);
            assert(strip[i - start] == s@[i as int]);
            strip.take(i - start).lemma_push_map_commute(
                |c: char| crate::text::spec_ascii_lower_char(c),
                strip[i - start],
            );
            strip.lemma_map_take_succ(|c: char| crate::text::spec_ascii_lower_char(c), i - start);
            assert((i + 1) - start == (i - start) + 1);
        }
        i = i + 1;
    }
    proof {
        assert(spec_strip_sign(s@).take(s@.len() - start) == spec_strip_sign(s@));
        assert(low@ == spec_ascii_lower(spec_strip_sign(s@)));
    }
    let inf = str_to_chars("inf");
    let infinity = str_to_chars("infinity");
    let nan = str_to_chars("nan");
    proof {
        reveal_strlit("inf");
        reveal_strlit("infinity");
        reveal_strlit("nan");
    }
    if chars_eq(&low, &inf) || chars_eq(&low, &infinity) || chars_eq(&low, &nan) {
        return true;
    }
    let ps = split_chars(&low, 'e');
    let ghost pv = ps@.map_values(|p: Vec<char>| p@);
    if ps.len() == 1 {
        assert(ps@[0]@ == pv[0]);
        is_mantissa_chars(&ps[0])
    } else if ps.len() == 2 {
        assert(ps@[0]@ == pv[0] && ps@[1]@ == pv[1]);
        is_mantissa_chars(&ps[0]) && is_exponent_chars(&ps[1])
    } else {
        false
    }
}

} // verus!
