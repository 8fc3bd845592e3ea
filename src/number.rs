use vstd::prelude::*;

use crate::text::{chars_of, is_digit};

verus! {

/// Number of decimal digits in `s` from position `p` on, up to the first
/// other character.
pub open spec fn digit_run(s: Seq<char>, p: int) -> int
    decreases s.len() - p,
{
    if 0 <= p < s.len() && is_digit(s[p]) {
        1 + digit_run(s, p + 1)
    } else {
        0
    }
}

pub open spec fn is_sign(c: char) -> bool {
    c == '+' || c == '-'
}

pub open spec fn lower(c: char) -> char {
    if 'A' <= c <= 'Z' {
        ((c as u8) + 32) as u8 as char
    } else {
        c
    }
}

/// `s` equals the lower-case word `w`, ignoring case.
pub open spec fn same_word(s: Seq<char>, w: Seq<char>) -> bool {
    s.len() == w.len() && forall|i: int| 0 <= i < s.len() ==> lower(#[trigger] s[i]) == w[i]
}

/// Digits, with an optional fraction, then an optional exponent, from `p`
/// to the end of `s`.
pub open spec fn mantissa_from(s: Seq<char>, p: int) -> bool {
    let int_digits = digit_run(s, p);
    let int_end = p + int_digits;
    let has_dot = int_end < s.len() && s[int_end] == '.';
    let frac_digits = if has_dot {
        digit_run(s, int_end + 1)
    } else {
        0
    };
    let frac_end = if has_dot {
        int_end + 1 + frac_digits
    } else {
        int_end
    };
    &&& int_digits + frac_digits >= 1
    &&& (frac_end == s.len() || (frac_end < s.len() && (s[frac_end] == 'e' || s[frac_end] == 'E') && {
        let exp_start = if frac_end + 1 < s.len() && is_sign(s[frac_end + 1]) {
            frac_end + 2
        } else {
            frac_end + 1
        };
        digit_run(s, exp_start) >= 1 && exp_start + digit_run(s, exp_start) == s.len()
    }))
}

/// Whether `s` is a floating-point literal as std's `f64` parser documents
/// them: an optional sign, then `inf`, `infinity` or `nan` in any case, or
/// digits with an optional fraction and exponent.
pub open spec fn float_text(s: Seq<char>) -> bool {
    let start = if s.len() > 0 && is_sign(s[0]) {
        1int
    } else {
        0int
    };
    let rest = s.subrange(start, s.len() as int);
    same_word(rest, "inf"@) || same_word(rest, "infinity"@) || same_word(rest, "nan"@) || mantissa_from(
        s,
        start,
    )
}

fn digit_run_exec(s: &Vec<char>, p: usize) -> (r: usize)
    requires
        p <= s@.len(),
    ensures
        r == digit_run(s@, p as int),
        p + r <= s@.len(),
{
    let mut q: usize = p;
    while q < s.len() && '0' <= s[q] && s[q] <= '9'
        invariant
            p <= q <= s@.len(),
            digit_run(s@, p as int) == (q - p) + digit_run(s@, q as int),
        decreases s@.len() - q,
    {
        q = q + 1;
    }
    q - p
}

fn lower_char(c: char) -> (r: char)
    ensures
        r == lower(c),
{
    if 'A' <= c && c <= 'Z' {
        ((c as u8) + 32) as char
    } else {
        c
    }
}

fn same_word_exec(s: &Vec<char>, from: usize, w: &str) -> (r: bool)
    requires
        from <= s@.len(),
    ensures
        r == same_word(s@.subrange(from as int, s@.len() as int), w@),
{
    let ws = chars_of(w);
    let ghost rest = s@.subrange(from as int, s@.len() as int);
    let n = s.len();
    if n - from != ws.len() {
        return false;
    }
    let mut i: usize = 0;
    while i < ws.len()
        invariant
            ws@ == w@,
            from <= s@.len(),
            s@.len() <= usize::MAX,
            rest == s@.subrange(from as int, s@.len() as int),
            s@.len() - from == ws@.len(),
            0 <= i <= ws@.len(),
            forall|j: int| 0 <= j < i ==> lower(#[trigger] rest[j]) == w@[j],
        decreases ws@.len() - i,
    {
        if lower_char(s[from + i]) != ws[i] {
            proof {
                assert(rest[i as int] == s@[from + i]);
            }
            return false;
        }
        proof {
            assert(rest[i as int] == s@[from + i]);
        }
        i = i + 1;
    }
    true
}

/// Whether a text is a floating-point literal.
pub fn is_float_text(t: &str) -> (r: bool)
    ensures
        r == float_text(t@),
{
    let s = chars_of(t);
    let start: usize = if s.len() > 0 && (s[0] == '+' || s[0] == '-') {
        1
    } else {
        0
    };
    if same_word_exec(&s, start, "inf") || same_word_exec(&s, start, "infinity") || same_word_exec(&s, start, "nan") {
        return true;
    }
    let int_digits = digit_run_exec(&s, start);
    let int_end = start + int_digits;
    let has_dot = int_end < s.len() && s[int_end] == '.';
    let frac_digits = if has_dot {
        digit_run_exec(&s, int_end + 1)
    } else {
        0
    };
    let frac_end = if has_dot {
        int_end + 1 + frac_digits
    } else {
        int_end
    };
    if int_digits + frac_digits < 1 {
        return false;
    }
    if frac_end == s.len() {
        return true;
    }
    if !(s[frac_end] == 'e' || s[frac_end] == 'E') {
        return false;
    }
    let exp_start = if frac_end + 1 < s.len() && (s[frac_end + 1] == '+' || s[frac_end + 1] == '-') {
        frac_end + 2
    } else {
        frac_end + 1
    };
    let exp_digits = digit_run_exec(&s, exp_start);
    exp_digits >= 1 && exp_start + exp_digits == s.len()
}

} // verus!
