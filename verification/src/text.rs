//! Decimal rendering and parsing of unsigned integers.

use vstd::prelude::*;

verus! {

/// The ten decimal digit characters, in order.
pub open spec fn digit_chars() -> Seq<char> {
    seq!['0', '1', '2', '3', '4', '5', '6', '7', '8', '9']
}

/// The character of the decimal digit `d` (meaningful for `d < 10`).
pub open spec fn digit_char(d: nat) -> char {
    digit_chars()[d as int]
}

/// `c` is one of the ASCII digits `'0'..='9'`.
pub open spec fn is_digit(c: char) -> bool {
    48 <= (c as int) <= 57
}

/// The value of the ASCII digit `c`.
pub open spec fn digit_value(c: char) -> nat {
    ((c as int) - 48) as nat
}

/// Every character of `s` is an ASCII digit.
pub open spec fn all_digits(s: Seq<char>) -> bool {
    forall|i: int| 0 <= i < s.len() ==> is_digit(#[trigger] s[i])
}

/// The number that the digit string `s` denotes (most significant digit first).
pub open spec fn digits_value(s: Seq<char>) -> nat
    decreases s.len(),
{
    if s.len() == 0 {
        0
    } else {
        digits_value(s.drop_last()) * 10 + digit_value(s.last())
    }
}

/// The shortest decimal representation of `n`, without sign or leading zeros.
pub open spec fn decimal(n: nat) -> Seq<char>
    decreases n,
{
    if n < 10 {
        seq![digit_char(n)]
    } else {
        decimal(n / 10) + seq![digit_char(n % 10)]
    }
}

/// What parsing `s` as a `u32` gives: an optional `'+'` followed by at least
/// one ASCII digit, and a value that fits in 32 bits; anything else is refused.
pub open spec fn parse_u32_spec(s: Seq<char>) -> Option<u32> {
    let d = if s.len() > 0 && s[0] == '+' { s.drop_first() } else { s };
    if d.len() > 0 && all_digits(d) && digits_value(d) <= u32::MAX {
        Some(digits_value(d) as u32)
    } else {
        None
    }
}

/// `s` joined by `", "`, each number written in decimal.
pub open spec fn join_decimals(s: Seq<u32>) -> Seq<char>
    decreases s.len(),
{
    if s.len() == 0 {
        Seq::empty()
    } else if s.len() == 1 {
        decimal(s[0] as nat)
    } else {
        join_decimals(s.drop_last()) + seq![',', ' '] + decimal(s.last() as nat)
    }
}

/// The digit characters are digits, and denote their own value.
pub proof fn lemma_digit_char(d: nat)
    requires
        d < 10,
    ensures
        is_digit(digit_char(d)),
        digit_value(digit_char(d)) == d,
        digit_char(d) != '_',
        digit_char(d) != '+',
{
    assert(d == 0 || d == 1 || d == 2 || d == 3 || d == 4 || d == 5 || d == 6 || d == 7 || d
        == 8 || d == 9);
}

/// A decimal representation is a non-empty digit string that denotes `n`,
/// starts with a digit and contains no `'_'`.
pub proof fn lemma_decimal(n: nat)
    ensures
        decimal(n).len() > 0,
        all_digits(decimal(n)),
        digits_value(decimal(n)) == n,
        !decimal(n).contains('_'),
        decimal(n)[0] != '+',
    decreases n,
{
    if n < 10 {
        lemma_digit_char(n);
        assert(decimal(n).drop_last() =~= Seq::<char>::empty());
        assert(digits_value(Seq::<char>::empty()) == 0);
        assert(digits_value(decimal(n)) == digits_value(decimal(n).drop_last()) * 10 + digit_value(decimal(n).last()));
    } else {
        lemma_decimal(n / 10);
        lemma_digit_char(n % 10);
        let s = decimal(n);
        assert(s.drop_last() =~= decimal(n / 10));
        assert(s.last() == digit_char(n % 10));
        assert forall|i: int| 0 <= i < s.len() implies is_digit(#[trigger] s[i]) by {
            if i < decimal(n / 10).len() {
                assert(s[i] == decimal(n / 10)[i]);
            }
        }
        assert forall|i: int| 0 <= i < s.len() implies #[trigger] s[i] != '_' by {
            if i < decimal(n / 10).len() {
                assert(s[i] == decimal(n / 10)[i]);
            }
        }
        assert(s[0] == decimal(n / 10)[0]);
        assert(digits_value(s) == digits_value(decimal(n / 10)) * 10 + digit_value(digit_char(n % 10)));
        assert((n / 10) * 10 + n % 10 == n);
    }
}

/// Parsing the decimal representation of a 32-bit value gives that value back.
pub proof fn lemma_parse_decimal(n: u32)
    ensures
        parse_u32_spec(decimal(n as nat)) == Some(n),
{
    lemma_decimal(n as nat);
}

/// The value of a prefix of a digit string is at most the value of the string.
pub proof fn lemma_digits_value_prefix(s: Seq<char>, k: int)
    requires
        all_digits(s),
        0 <= k <= s.len(),
    ensures
        digits_value(s.take(k)) <= digits_value(s),
    decreases s.len(),
{
    if k < s.len() {
        let t = s.drop_last();
        assert(all_digits(t)) by {
            assert forall|i: int| 0 <= i < t.len() implies is_digit(#[trigger] t[i]) by {
                assert(t[i] == s[i]);
            }
        }
        lemma_digits_value_prefix(t, k);
        assert(t.take(k) =~= s.take(k));
    } else {
        assert(s.take(k) =~= s);
    }
}

/// The one-character string of the decimal digit `d`.
fn digit_str(d: u64) -> (s: &'static str)
    requires
        d < 10,
    ensures
        s@ == seq![digit_char(d as nat)],
{
    if d == 0 {
        proof {
            reveal_strlit("0");
        }
        "0"
    } else if d == 1 {
        proof {
            reveal_strlit("1");
        }
        "1"
    } else if d == 2 {
        proof {
            reveal_strlit("2");
        }
        "2"
    } else if d == 3 {
        proof {
            reveal_strlit("3");
        }
        "3"
    } else if d == 4 {
        proof {
            reveal_strlit("4");
        }
        "4"
    } else if d == 5 {
        proof {
            reveal_strlit("5");
        }
        "5"
    } else if d == 6 {
        proof {
            reveal_strlit("6");
        }
        "6"
    } else if d == 7 {
        proof {
            reveal_strlit("7");
        }
        "7"
    } else if d == 8 {
        proof {
            reveal_strlit("8");
        }
        "8"
    } else {
        proof {
            reveal_strlit("9");
        }
        "9"
    }
}

/// Writes `n` in decimal.
pub fn decimal_string(n: u64) -> (s: String)
    ensures
        s@ == decimal(n as nat),
    decreases n,
{
    if n < 10 {
        String::from_str(digit_str(n))
    } else {
        let mut s = decimal_string(n / 10);
        s.append(digit_str(n % 10));
        s
    }
}

/// Parses `s` as a `u32` the way `str::parse::<u32>` does: an optional `'+'`
/// followed by one or more ASCII digits whose value fits in 32 bits.
pub fn parse_u32(s: &str) -> (r: Option<u32>)
    ensures
        r == parse_u32_spec(s@),
{
    let n = s.unicode_len();
    let mut start: usize = 0;
    if n > 0 && s.get_char(0) == '+' {
        start = 1;
    }
    let ghost d = if s@.len() > 0 && s@[0] == '+' { s@.drop_first() } else { s@ };
    assert(d =~= s@.subrange(start as int, n as int));
    if start == n {
        return None;
    }
    let mut i: usize = start;
    let mut acc: u64 = 0;
    while i < n
        invariant
            n == s@.len(),
            start < n,
            start <= i <= n,
            d =~= s@.subrange(start as int, n as int),
            d == (if s@.len() > 0 && s@[0] == '+' { s@.drop_first() } else { s@ }),
            acc == digits_value(s@.subrange(start as int, i as int)),
            all_digits(s@.subrange(start as int, i as int)),
            acc <= u32::MAX,
        decreases n - i,
    {
        let c = s.get_char(i);
        let v = c as u32;
        if v < 48 || v > 57 {
            assert(d[i - start] == c);
            assert(!is_digit(d[i - start]));
            assert(!all_digits(d));
            return None;
        }
        let ghost prev = s@.subrange(start as int, i as int);
        let ghost next = s@.subrange(start as int, i + 1);
        assert(next.drop_last() =~= prev);
        assert(next.last() == c);
        assert(digit_value(c) == v - 48);
        acc = acc * 10 + (v as u64 - 48);
        assert(acc == digits_value(next));
        assert(all_digits(next)) by {
            assert forall|j: int| 0 <= j < next.len() implies is_digit(#[trigger] next[j]) by {
                if j < prev.len() {
                    assert(next[j] == prev[j]);
                }
            }
        }
        if acc > 0xffff_ffff {
            proof {
                if all_digits(d) {
                    lemma_digits_value_prefix(d, i + 1 - start);
                    assert(d.take(i + 1 - start) =~= next);
                }
            }
            return None;
        }
        i = i + 1;
    }
    assert(s@.subrange(start as int, n as int) =~= d);
    Some(acc as u32)
}

/// Writes each of `values` in decimal, separated by `", "`.
pub fn join_decimal_strings(values: &[u32]) -> (s: String)
    ensures
        s@ == join_decimals(values@),
{
    let mut s = String::new();
    let mut i: usize = 0;
    proof {
        reveal_strlit(", ");
        assert(values@.take(0) =~= Seq::<u32>::empty());
    }
    while i < values.len()
        invariant
            i <= values.len(),
            s@ == join_decimals(values@.take(i as int)),
        decreases values.len() - i,
    {
        let ghost before = values@.take(i as int);
        assert(values@.take(i + 1).drop_last() =~= before);
        proof {
            reveal_strlit(", ");
        }
        if i > 0 {
            s.append(", ");
        }
        let digits = decimal_string(values[i] as u64);
        s.append(digits.as_str());
        proof {
            if i == 0 {
                assert(s@ =~= decimal(values@[0] as nat));
            } else {
                assert(s@ =~= join_decimals(before) + seq![',', ' '] + decimal(values@[i as int] as nat));
            }
        }
        i = i + 1;
    }
    assert(values@.take(values.len() as int) =~= values@);
    s
}

} // verus!
