//! The grammar of number literals: the texts that a cell of kind number may
//! hold. They are the forms in which a 64-bit float is displayed: a decimal
//! numeral with an optional sign and an optional fraction, or one of the
//! tokens `NaN`, `inf` and `-inf`.

use vstd::prelude::*;

verus! {

/// Whether `c` is a decimal digit.
pub open spec fn is_digit(c: char) -> bool {
    '0' <= c && c <= '9'
}

/// Whether every character of `s` is a decimal digit.
pub open spec fn all_digits(s: Seq<char>) -> bool {
    forall|i: int| 0 <= i < s.len() ==> is_digit(#[trigger] s[i])
}

/// Whether `s` is one or more digits, optionally followed by a point and one
/// or more digits.
pub open spec fn is_unsigned_decimal(s: Seq<char>) -> bool {
    ||| (s.len() > 0 && all_digits(s))
    ||| exists|k: int| is_point_split(s, k)
}

/// Whether `s` has its decimal point at position `k`, with digits only, and at
/// least one, on either side.
pub open spec fn is_point_split(s: Seq<char>, k: int) -> bool {
    &&& 0 < k < s.len() - 1
    &&& s[k] == '.'
    &&& all_digits(s.take(k))
    &&& all_digits(s.skip(k + 1))
}

/// Whether `s` is a decimal numeral with an optional leading `-`.
pub open spec fn is_decimal(s: Seq<char>) -> bool {
    ||| is_unsigned_decimal(s)
    ||| (s.len() > 0 && s[0] == '-' && is_unsigned_decimal(s.skip(1)))
}

/// The token for a value that is not a number.
pub open spec fn token_nan() -> Seq<char> {
    seq!['N', 'a', 'N']
}

/// The token for positive infinity.
pub open spec fn token_inf() -> Seq<char> {
    seq!['i', 'n', 'f']
}

/// The token for negative infinity.
pub open spec fn token_neg_inf() -> Seq<char> {
    seq!['-', 'i', 'n', 'f']
}

/// Whether `s` is a number literal.
pub open spec fn is_number_literal(s: Seq<char>) -> bool {
    is_decimal(s) || s == token_nan() || s == token_inf() || s == token_neg_inf()
}

/// A number literal is made of digits, points, minus signs and the letters
/// of the three tokens: it holds no character that XML reserves for markup.
pub proof fn lemma_number_literal_chars(s: Seq<char>, i: int)
    requires
        is_number_literal(s),
        0 <= i < s.len(),
    ensures
        is_digit(s[i]) || s[i] == '.' || s[i] == '-' || s[i] == 'N' || s[i] == 'a' || s[i] == 'i'
            || s[i] == 'n' || s[i] == 'f',
{
    if is_unsigned_decimal(s) {
        lemma_unsigned_decimal_chars(s, i);
    } else if is_decimal(s) {
        if i > 0 {
            assert(s.skip(1)[i - 1] == s[i]);
            lemma_unsigned_decimal_chars(s.skip(1), i - 1);
        }
    }
}

/// An unsigned decimal numeral is made of digits and points.
pub proof fn lemma_unsigned_decimal_chars(s: Seq<char>, i: int)
    requires
        is_unsigned_decimal(s),
        0 <= i < s.len(),
    ensures
        is_digit(s[i]) || s[i] == '.',
{
    if !all_digits(s) {
        let k = choose|k: int| is_point_split(s, k);
        if i < k {
            assert(s.take(k)[i] == s[i]);
        } else if i > k {
            assert(s.skip(k + 1)[i - k - 1] == s[i]);
        }
    }
}

/// The characters of `text`, in order.
pub fn chars_of(text: &str) -> (v: Vec<char>)
    ensures
        v@ == text@,
{
    let mut v: Vec<char> = Vec::new();
    for c in it: text.chars()
        invariant
            it.seq() == text@,
            v@ == text@.take(it.index() as int),
    {
        proof {
            let k = it.index() as int;
            assert(text@.take(k + 1) =~= text@.take(k).push(c));
        }
        v.push(c);
    }
    proof {
        assert(text@.take(text@.len() as int) =~= text@);
    }
    v
}

/// The first position at or after `from` that holds no digit, or the length
/// if there is none.
fn skip_digits(s: &Vec<char>, from: usize) -> (end: usize)
    requires
        from <= s.len(),
    ensures
        from <= end <= s.len(),
        forall|i: int| from <= i < end ==> is_digit(#[trigger] s@[i]),
        end < s.len() ==> !is_digit(s@[end as int]),
{
    let mut i: usize = from;
    while i < s.len() && s[i] >= '0' && s[i] <= '9'
        invariant
            from <= i <= s.len(),
            forall|j: int| from <= j < i ==> is_digit(#[trigger] s@[j]),
        decreases s.len() - i,
    {
        i = i + 1;
    }
    i
}

/// Whether the characters of `s` from position `from` on form an unsigned
/// decimal numeral.
fn check_unsigned_decimal(s: &Vec<char>, from: usize) -> (b: bool)
    requires
        from <= s.len(),
    ensures
        b == is_unsigned_decimal(s@.skip(from as int)),
{
    let ghost t = s@.skip(from as int);
    let n: usize = s.len();
    let i: usize = skip_digits(s, from);
    if i == from {
        proof {
            assert(!is_unsigned_decimal(t)) by {
                if t.len() > 0 {
                    assert(t[0] == s@[from as int]);
                    assert(!is_digit(t[0]));
                    assert forall|k: int| !is_point_split(t, k) by {
                        if 0 < k < t.len() - 1 && all_digits(t.take(k)) {
                            assert(t.take(k)[0] == t[0]);
                        }
                    }
                }
            }
        }
        return false;
    }
    if i == n {
        proof {
            assert(all_digits(t)) by {
                assert forall|j: int| 0 <= j < t.len() implies is_digit(#[trigger] t[j]) by {
                    assert(t[j] == s@[from + j]);
                }
            }
        }
        return true;
    }
    let ghost p = (i - from) as int;
    proof {
        assert(t[p] == s@[i as int]);
        assert(!is_digit(t[p]));
        assert(!all_digits(t));
    }
    if s[i] != '.' {
        proof {
            assert forall|k: int| !is_point_split(t, k) by {
                if is_point_split(t, k) {
                    if k < p {
                        assert(t[k] == s@[from + k]);
                        assert(is_digit(t[k]));
                    } else if k > p {
                        assert(t.take(k)[p] == t[p]);
                    }
                }
            }
        }
        return false;
    }
    let j: usize = skip_digits(s, i + 1);
    let accepted: bool = j == n && j > i + 1;
    proof {
        if accepted {
            assert(is_point_split(t, p)) by {
                assert forall|a: int| 0 <= a < t.take(p).len() implies is_digit(
                    #[trigger] t.take(p)[a],
                ) by {
                    assert(t.take(p)[a] == s@[from + a]);
                }
                assert forall|a: int| 0 <= a < t.skip(p + 1).len() implies is_digit(
                    #[trigger] t.skip(p + 1)[a],
                ) by {
                    assert(t.skip(p + 1)[a] == s@[i + 1 + a]);
                }
            }
        } else {
            assert forall|k: int| !is_point_split(t, k) by {
                if is_point_split(t, k) {
                    if k < p {
                        assert(t[k] == s@[from + k]);
                        assert(is_digit(t[k]));
                    } else if k > p {
                        assert(t.take(k)[p] == t[p]);
                    } else {
                        if j < n {
                            let q = (j - from) as int;
                            assert(t.skip(p + 1)[q - p - 1] == t[q]);
                            assert(t[q] == s@[j as int]);
                        }
                    }
                }
            }
        }
    }
    accepted
}

/// Whether `s` is exactly the three characters given.
fn is_token3(s: &Vec<char>, a: char, b: char, c: char) -> (r: bool)
    ensures
        r == (s@ == seq![a, b, c]),
{
    let r: bool = s.len() == 3 && s[0] == a && s[1] == b && s[2] == c;
    proof {
        if r {
            assert(s@ =~= seq![a, b, c]);
        } else if s@ == seq![a, b, c] {
            assert(seq![a, b, c].len() == 3);
            assert(seq![a, b, c][0] == a);
            assert(seq![a, b, c][1] == b);
            assert(seq![a, b, c][2] == c);
        }
    }
    r
}

/// Whether `text` is a number literal.
pub fn check_number_literal(text: &str) -> (b: bool)
    ensures
        b == is_number_literal(text@),
{
    let s: Vec<char> = chars_of(text);
    let n: usize = s.len();
    if is_token3(&s, 'N', 'a', 'N') || is_token3(&s, 'i', 'n', 'f') {
        return true;
    }
    if n == 4 && s[0] == '-' && s[1] == 'i' && s[2] == 'n' && s[3] == 'f' {
        assert(s@ =~= token_neg_inf());
        return true;
    }
    proof {
        assert(s@ != token_neg_inf()) by {
            if s@ == token_neg_inf() {
                assert(token_neg_inf().len() == 4);
                assert(token_neg_inf()[0] == '-');
                assert(token_neg_inf()[1] == 'i');
                assert(token_neg_inf()[2] == 'n');
                assert(token_neg_inf()[3] == 'f');
            }
        }
        assert(s@.skip(0) =~= s@);
    }
    if n > 0 && s[0] == '-' {
        proof {
            assert(!is_unsigned_decimal(s@)) by {
                assert(!is_digit(s@[0]));
                assert forall|k: int| !is_point_split(s@, k) by {
                    if 0 < k < s@.len() - 1 && all_digits(s@.take(k)) {
                        assert(s@.take(k)[0] == s@[0]);
                    }
                }
            }
        }
        check_unsigned_decimal(&s, 1)
    } else {
        check_unsigned_decimal(&s, 0)
    }
}

} // verus!
