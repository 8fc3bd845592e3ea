use vstd::prelude::*;

verus! {

/// Index of the first `c` in `s`.
pub open spec fn first_index(s: Seq<char>, c: char) -> Option<int> {
    if exists|i: int| 0 <= i < s.len() && s[i] == c && forall|j: int| 0 <= j < i ==> s[j] != c {
        Some(choose|i: int| 0 <= i < s.len() && s[i] == c && forall|j: int| 0 <= j < i ==> s[j] != c)
    } else {
        None
    }
}

/// The pieces of `s` between occurrences of `c` (one piece when there is none).
#[verifier::opaque]
pub open spec fn split(s: Seq<char>, c: char) -> Seq<Seq<char>>
    decreases s.len(),
{
    match first_index(s, c) {
        Some(i) => if 0 <= i < s.len() {
            seq![s.subrange(0, i)] + split(s.subrange(i + 1, s.len() as int), c)
        } else {
            seq![s]
        },
        None => seq![s],
    }
}

proof fn lemma_first_index_at(s: Seq<char>, c: char, i: int)
    requires
        0 <= i < s.len(),
        s[i] == c,
        forall|j: int| 0 <= j < i ==> s[j] != c,
    ensures
        first_index(s, c) == Some(i),
{
    let k = choose|k: int| 0 <= k < s.len() && s[k] == c && forall|j: int| 0 <= j < k ==> s[j] != c;
    if k < i {
    } else if k > i {
        assert(s[i] != c);
    }
}

proof fn lemma_split_step(rest: Seq<char>, c: char, k: int)
    requires
        0 <= k < rest.len(),
        rest[k] == c,
        forall|j: int| 0 <= j < k ==> rest[j] != c,
    ensures
        split(rest, c) == seq![rest.subrange(0, k)] + split(rest.subrange(k + 1, rest.len() as int), c),
{
    lemma_first_index_at(rest, c, k);
    reveal(split);
}

proof fn lemma_split_last(rest: Seq<char>, c: char)
    requires
        forall|j: int| 0 <= j < rest.len() ==> rest[j] != c,
    ensures
        split(rest, c) == seq![rest],
{
    lemma_first_index_none(rest, c);
    reveal(split);
}

proof fn lemma_first_index_none(s: Seq<char>, c: char)
    requires
        forall|j: int| 0 <= j < s.len() ==> s[j] != c,
    ensures
        first_index(s, c) is None,
{
}

/// The characters of a string.
pub fn chars_of(s: &str) -> (r: Vec<char>)
    ensures
        r@ == s@,
{
    let n = s.unicode_len();
    let mut out: Vec<char> = Vec::new();
    let mut i: usize = 0;
    while i < n
        invariant
            n == s@.len(),
            0 <= i <= n,
            out@ == s@.subrange(0, i as int),
        decreases n - i,
    {
        out.push(s.get_char(i));
        proof {
            assert(out@ =~= s@.subrange(0, i + 1));
        }
        i = i + 1;
    }
    proof {
        assert(out@ =~= s@);
    }
    out
}

/// Splits `s` at every `c`.
pub fn split_at_char(s: &str, c: char) -> (r: Vec<String>)
    ensures
        r@.map_values(|p: String| p@) == split(s@, c),
{
    let cs = chars_of(s);
    let ghost full = s@;
    let mut out: Vec<String> = Vec::new();
    let mut start: usize = 0;
    let mut i: usize = 0;
    proof {
        assert(full.subrange(0, full.len() as int) =~= full);
        assert(out@.map_values(|p: String| p@) =~= Seq::<Seq<char>>::empty());
        assert(split(full, c) =~= out@.map_values(|p: String| p@) + split(full.subrange(0, full.len() as int), c));
    }
    while i < cs.len()
        invariant
            cs@ == full,
            full == s@,
            0 <= start <= i <= cs@.len(),
            forall|j: int| start <= j < i ==> full[j] != c,
            split(full, c) == out@.map_values(|p: String| p@) + split(
                full.subrange(start as int, full.len() as int),
                c,
            ),
        decreases cs@.len() - i,
    {
        if cs[i] == c {
            let piece = s.substring_char(start, i).to_owned();
            let ghost rest = full.subrange(start as int, full.len() as int);
            proof {
                let k = i - start;
                assert(rest[k as int] == c);
                assert forall|j: int| 0 <= j < k implies rest[j] != c by {
                    assert(rest[j] == full[start + j]);
                }
                lemma_split_step(rest, c, k as int);
                assert(rest.subrange(0, k as int) =~= full.subrange(start as int, i as int));
                assert(rest.subrange(k + 1, rest.len() as int) =~= full.subrange(i + 1, full.len() as int));
            }
            let ghost before = out@;
            out.push(piece);
            proof {
                assert(out@.map_values(|p: String| p@) =~= before.map_values(|p: String| p@).push(
                    full.subrange(start as int, i as int),
                ));
                assert(split(full, c) =~= out@.map_values(|p: String| p@) + split(
                    full.subrange(i + 1, full.len() as int),
                    c,
                ));
            }
            start = i + 1;
        }
        i = i + 1;
    }
    let piece = s.substring_char(start, cs.len()).to_owned();
    let ghost rest = full.subrange(start as int, full.len() as int);
    proof {
        assert forall|j: int| 0 <= j < rest.len() implies rest[j] != c by {
            assert(rest[j] == full[start + j]);
        }
        lemma_split_last(rest, c);
    }
    let ghost before = out@;
    out.push(piece);
    proof {
        assert(out@.map_values(|p: String| p@) =~= before.map_values(|p: String| p@).push(rest));
        assert(split(full, c) =~= out@.map_values(|p: String| p@));
    }
    out
}

/// `p` is a prefix of `s`.
pub open spec fn has_prefix(s: Seq<char>, p: Seq<char>) -> bool {
    p.len() <= s.len() && s.subrange(0, p.len() as int) == p
}

pub fn starts_with(s: &str, p: &str) -> (r: bool)
    ensures
        r == has_prefix(s@, p@),
{
    let a = chars_of(s);
    let b = chars_of(p);
    if b.len() > a.len() {
        return false;
    }
    let mut i: usize = 0;
    while i < b.len()
        invariant
            a@ == s@,
            b@ == p@,
            b@.len() <= a@.len(),
            0 <= i <= b@.len(),
            forall|j: int| 0 <= j < i ==> a@[j] == b@[j],
        decreases b@.len() - i,
    {
        if a[i] != b[i] {
            proof {
                assert(s@.subrange(0, p@.len() as int)[i as int] != p@[i as int]);
            }
            return false;
        }
        i = i + 1;
    }
    proof {
        assert(s@.subrange(0, p@.len() as int) =~= p@);
    }
    true
}

pub open spec fn is_digit(c: char) -> bool {
    '0' <= c <= '9'
}

pub open spec fn all_digits(s: Seq<char>) -> bool {
    s.len() > 0 && forall|i: int| 0 <= i < s.len() ==> is_digit(#[trigger] s[i])
}

/// The number that decimal digits denote.
pub open spec fn digits_value(s: Seq<char>) -> int
    decreases s.len(),
{
    if s.len() == 0 {
        0
    } else {
        digits_value(s.drop_last()) * 10 + (s.last() as int - 48)
    }
}

/// The integer that a decimal text denotes: an optional sign, then digits.
pub open spec fn decimal_value(s: Seq<char>) -> Option<int> {
    if s.len() > 0 && s[0] == '-' && all_digits(s.drop_first()) {
        Some(-digits_value(s.drop_first()))
    } else if s.len() > 0 && s[0] == '+' && all_digits(s.drop_first()) {
        Some(digits_value(s.drop_first()))
    } else if all_digits(s) {
        Some(digits_value(s))
    } else {
        None
    }
}

/// The `i64` that a text denotes, when it is one.
pub open spec fn i64_of(s: Seq<char>) -> Option<i64> {
    match decimal_value(s) {
        Some(v) => if i64::MIN <= v <= i64::MAX {
            Some(v as i64)
        } else {
            None
        },
        None => None,
    }
}

proof fn lemma_digits_grow(s: Seq<char>, k: int)
    requires
        0 <= k <= s.len(),
        forall|i: int| 0 <= i < s.len() ==> is_digit(#[trigger] s[i]),
    ensures
        digits_value(s) >= digits_value(s.subrange(0, k)) >= 0,
    decreases s.len(),
{
    if s.len() > 0 {
        if k == s.len() {
            assert(s.subrange(0, k) =~= s);
            lemma_digits_grow(s.drop_last(), s.len() - 1);
            assert(s.drop_last().subrange(0, s.len() - 1) =~= s.drop_last());
        } else {
            lemma_digits_grow(s.drop_last(), k);
            assert(s.drop_last().subrange(0, k) =~= s.subrange(0, k));
        }
    } else {
        assert(s.subrange(0, k) =~= s);
    }
}

/// Magnitude of the digits from `from` on, when all are digits and it stays
/// at most `cap`.
fn digits_magnitude(cs: &Vec<char>, from: usize, cap: u64) -> (r: Option<u64>)
    requires
        from <= cs@.len(),
        cap >= 9,
    ensures
        match r {
            Some(v) => all_digits(cs@.subrange(from as int, cs@.len() as int)) && v == digits_value(
                cs@.subrange(from as int, cs@.len() as int),
            ) && v <= cap,
            None => !all_digits(cs@.subrange(from as int, cs@.len() as int)) || digits_value(
                cs@.subrange(from as int, cs@.len() as int),
            ) > cap,
        },
{
    let ghost t = cs@.subrange(from as int, cs@.len() as int);
    if from == cs.len() {
        return None;
    }
    let mut acc: u64 = 0;
    let mut i: usize = from;
    let mut over = false;
    while i < cs.len()
        invariant
            from < cs@.len(),
            cap >= 9,
            t == cs@.subrange(from as int, cs@.len() as int),
            from <= i <= cs@.len(),
            forall|j: int| from <= j < i ==> is_digit(#[trigger] cs@[j]),
            !over ==> acc == digits_value(cs@.subrange(from as int, i as int)) && acc <= cap,
            over ==> digits_value(cs@.subrange(from as int, i as int)) > cap,
        decreases cs@.len() - i,
    {
        let c = cs[i];
        if !('0' <= c && c <= '9') {
            proof {
                assert(!is_digit(t[i - from]));
            }
            return None;
        }
        let d = (c as u32 - 48) as u64;
        proof {
            assert(cs@.subrange(from as int, i + 1).drop_last() =~= cs@.subrange(from as int, i as int));
            assert(cs@.subrange(from as int, i + 1).last() == c);
            lemma_digits_grow(cs@.subrange(from as int, i as int), 0);
            assert(cs@.subrange(from as int, i as int).subrange(0, 0) =~= Seq::<char>::empty());
        }
        if !over {
            if acc > (cap - d) / 10 {
                over = true;
                proof {
                    assert(acc * 10 + d > cap) by (nonlinear_arith)
                        requires
                            acc > (cap - d) / 10,
                            d <= 9,
                            d <= cap || true,
                    ;
                }
            } else {
                proof {
                    assert(acc * 10 + d <= cap) by (nonlinear_arith)
                        requires
                            acc <= (cap - d) / 10,
                            d <= cap,
                    ;
                }
                acc = acc * 10 + d;
            }
        } else {
            proof {
                assert(digits_value(cs@.subrange(from as int, i + 1)) >= digits_value(
                    cs@.subrange(from as int, i as int),
                ) * 10) by (nonlinear_arith)
                    requires
                        digits_value(cs@.subrange(from as int, i + 1)) == digits_value(
                            cs@.subrange(from as int, i as int),
                        ) * 10 + d,
                        d >= 0,
                ;
            }
        }
        i = i + 1;
    }
    proof {
        assert(cs@.subrange(from as int, i as int) =~= t);
        assert forall|j: int| 0 <= j < t.len() implies is_digit(#[trigger] t[j]) by {
            assert(t[j] == cs@[from + j]);
        }
    }
    if over {
        None
    } else {
        Some(acc)
    }
}

/// The `i64` that a text denotes: an optional sign, then decimal digits,
/// within range.
pub fn parse_i64(s: &str) -> (r: Option<i64>)
    ensures
        r == i64_of(s@),
{
    let cs = chars_of(s);
    if cs.len() == 0 {
        return None;
    }
    if cs[0] == '-' {
        proof {
            assert(cs@.subrange(1, cs@.len() as int) =~= s@.drop_first());
        }
        return match digits_magnitude(&cs, 1, 9223372036854775808u64) {
            Some(v) => if v == 9223372036854775808u64 {
                Some(i64::MIN)
            } else {
                Some(-(v as i64))
            },
            None => None,
        };
    }
    if cs[0] == '+' {
        proof {
            assert(cs@.subrange(1, cs@.len() as int) =~= s@.drop_first());
        }
        return match digits_magnitude(&cs, 1, 9223372036854775807u64) {
            Some(v) => Some(v as i64),
            None => None,
        };
    }
    proof {
        assert(cs@.subrange(0, cs@.len() as int) =~= s@);
    }
    match digits_magnitude(&cs, 0, 9223372036854775807u64) {
        Some(v) => Some(v as i64),
        None => None,
    }
}

/// The number that a text of decimal digits denotes, when it fits a `usize`.
pub fn parse_usize(s: &str) -> (r: Option<usize>)
    ensures
        match r {
            Some(v) => all_digits(s@) && v == digits_value(s@),
            None => !all_digits(s@) || digits_value(s@) > usize::MAX,
        },
{
    let cs = chars_of(s);
    proof {
        assert(cs@.subrange(0, cs@.len() as int) =~= s@);
    }
    match digits_magnitude(&cs, 0, usize::MAX as u64) {
        Some(v) => Some(v as usize),
        None => None,
    }
}

} // verus!
