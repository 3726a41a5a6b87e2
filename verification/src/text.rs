//! Small text helpers shared by the modules that print or read wire text.

use vstd::prelude::*;
use vstd::string::*;

verus! {

/// Whether two string slices hold the same characters.
pub fn str_equal(a: &str, b: &str) -> (same: bool)
    ensures
        same == (a@ == b@),
{
    let n = a.unicode_len();
    if b.unicode_len() != n {
        return false;
    }
    let mut i: usize = 0;
    while i < n
        invariant
            n == a@.len(),
            n == b@.len(),
            i <= n,
            forall|j: int| 0 <= j < i ==> a@[j] == b@[j],
        decreases n - i,
    {
        if a.get_char(i) != b.get_char(i) {
            return false;
        }
        i = i + 1;
    }
    assert(a@ =~= b@);
    true
}

/// The digit character of a value below ten, as spec.
pub open spec fn digit_char(d: nat) -> char
    recommends
        d < 10,
{
    if d == 0 {
        '0'
    } else if d == 1 {
        '1'
    } else if d == 2 {
        '2'
    } else if d == 3 {
        '3'
    } else if d == 4 {
        '4'
    } else if d == 5 {
        '5'
    } else if d == 6 {
        '6'
    } else if d == 7 {
        '7'
    } else if d == 8 {
        '8'
    } else {
        '9'
    }
}

/// The decimal rendering of a natural number: no sign, no leading zeros,
/// and `"0"` for zero.
pub open spec fn decimal(n: nat) -> Seq<char>
    decreases n,
{
    if n < 10 {
        seq![digit_char(n)]
    } else {
        decimal(n / 10).push(digit_char(n % 10))
    }
}

/// The one-character string of a digit.
fn digit_str(d: u64) -> (s: &'static str)
    requires
        d < 10,
    ensures
        s@ == seq![digit_char(d as nat)],
{
    proof {
        reveal_strlit("0");
        reveal_strlit("1");
        reveal_strlit("2");
        reveal_strlit("3");
        reveal_strlit("4");
        reveal_strlit("5");
        reveal_strlit("6");
        reveal_strlit("7");
        reveal_strlit("8");
        reveal_strlit("9");
    }
    let s = if d == 0 {
        "0"
    } else if d == 1 {
        "1"
    } else if d == 2 {
        "2"
    } else if d == 3 {
        "3"
    } else if d == 4 {
        "4"
    } else if d == 5 {
        "5"
    } else if d == 6 {
        "6"
    } else if d == 7 {
        "7"
    } else if d == 8 {
        "8"
    } else {
        "9"
    };
    assert(s@ =~= seq![digit_char(d as nat)]);
    s
}

/// Appends the decimal rendering of `n` to `out`.
pub fn push_decimal(out: &mut String, n: u64)
    ensures
        final(out)@ == old(out)@ + decimal(n as nat),
    decreases n,
{
    if n < 10 {
        out.append(digit_str(n));
    } else {
        push_decimal(out, n / 10);
        out.append(digit_str(n % 10));
        assert(out@ =~= old(out)@ + decimal(n as nat));
    }
}

/// The characters of a string slice, one by one.
pub fn chars_of(s: &str) -> (chars: Vec<char>)
    ensures
        chars@ == s@,
{
    let n = s.unicode_len();
    let mut chars: Vec<char> = Vec::new();
    let mut i: usize = 0;
    while i < n
        invariant
            n == s@.len(),
            i <= n,
            chars@ == s@.subrange(0, i as int),
        decreases n - i,
    {
        chars.push(s.get_char(i));
        i = i + 1;
        assert(chars@ =~= s@.subrange(0, i as int));
    }
    assert(s@.subrange(0, n as int) =~= s@);
    chars
}

/// Whether a character is a decimal digit.
pub open spec fn is_digit(c: char) -> bool {
    '0' <= c && c <= '9'
}

/// The value of a decimal digit.
pub open spec fn digit_value(c: char) -> nat
    recommends
        is_digit(c),
{
    (c as u32 - '0' as u32) as nat
}

/// The number that a run of decimal digits stands for; `None` where the
/// run is empty or holds anything but digits.
pub open spec fn decimal_value(s: Seq<char>) -> Option<nat>
    decreases s.len(),
{
    if s.len() == 0 {
        None
    } else if !is_digit(s.last()) {
        None
    } else if s.len() == 1 {
        Some(digit_value(s.last()))
    } else {
        match decimal_value(s.drop_last()) {
            Some(v) => Some(v * 10 + digit_value(s.last())),
            None => None,
        }
    }
}

/// Whether every character is a decimal digit.
pub open spec fn all_digits(s: Seq<char>) -> bool {
    forall|i: int| 0 <= i < s.len() ==> is_digit(#[trigger] s[i])
}

/// A digit written out is read back as itself.
pub proof fn lemma_digit_char(d: nat)
    requires
        d < 10,
    ensures
        is_digit(digit_char(d)),
        digit_value(digit_char(d)) == d,
{
}

/// A run of digits has a value exactly when it is not empty.
pub proof fn lemma_decimal_value_some(s: Seq<char>)
    ensures
        decimal_value(s) is Some <==> s.len() > 0 && all_digits(s),
    decreases s.len(),
{
    if s.len() > 0 {
        lemma_decimal_value_some(s.drop_last());
        if s.len() > 1 && is_digit(s.last()) {
            if all_digits(s.drop_last()) {
                assert forall|i: int| 0 <= i < s.len() implies is_digit(#[trigger] s[i]) by {
                    if i < s.len() - 1 {
                        assert(s.drop_last()[i] == s[i]);
                    }
                }
            }
            if all_digits(s) {
                assert forall|i: int| 0 <= i < s.drop_last().len() implies is_digit(
                    #[trigger] s.drop_last()[i],
                ) by {
                    assert(s.drop_last()[i] == s[i]);
                }
            }
        }
    }
}

/// A number written out in decimal is read back as itself; what is
/// written is not empty, holds digits only, and starts with a zero only
/// where the number is zero.
pub proof fn lemma_decimal_read_back(n: nat)
    ensures
        decimal_value(decimal(n)) == Some(n),
        decimal(n).len() > 0,
        all_digits(decimal(n)),
        decimal(n)[0] == '0' ==> decimal(n).len() == 1,
    decreases n,
{
    if n < 10 {
        lemma_digit_char(n);
    } else {
        lemma_decimal_read_back(n / 10);
        lemma_digit_char(n % 10);
        let front = decimal(n / 10);
        let all = decimal(n);
        assert(all.drop_last() =~= front);
        assert(all[0] == front[0]);
        assert forall|i: int| 0 <= i < all.len() implies is_digit(#[trigger] all[i]) by {
            if i < front.len() {
                assert(all[i] == front[i]);
            }
        }
        if front[0] == '0' {
            assert(front.len() == 1);
            assert(decimal_value(front) == Some(0nat));
        }
    }
}

/// The number that the characters `from..to` stand for in decimal, where
/// they are digits, not none, and the number is no more than `u32::MAX`.
pub fn parse_decimal(chars: &Vec<char>, from: usize, to: usize) -> (r: Option<u32>)
    requires
        from <= to <= chars.len(),
    ensures
        r == match decimal_value(chars@.subrange(from as int, to as int)) {
            Some(v) => if v <= u32::MAX {
                Some(v as u32)
            } else {
                None
            },
            None => None,
        },
{
    let ghost all = chars@.subrange(from as int, to as int);
    if from == to {
        return None;
    }
    let mut value: u64 = 0;
    let mut i: usize = from;
    while i < to
        invariant
            from <= i <= to <= chars.len(),
            from < to,
            all == chars@.subrange(from as int, to as int),
            value <= u32::MAX,
            i > from ==> decimal_value(chars@.subrange(from as int, i as int)) == Some(
                value as nat,
            ),
            i == from ==> value == 0,
        decreases to - i,
    {
        let c = chars[i];
        let ghost so_far = chars@.subrange(from as int, i as int);
        let ghost more = chars@.subrange(from as int, i as int + 1);
        proof {
            assert(more.drop_last() =~= so_far);
            assert(more.last() == c);
        }
        if !(c >= '0' && c <= '9') {
            proof {
                lemma_decimal_value_some(all);
                assert(all[i as int - from as int] == c);
            }
            return None;
        }
        let digit: u64 = (c as u32 - '0' as u32) as u64;
        value = value * 10 + digit;
        proof {
            assert(is_digit(c));
            assert(digit as nat == digit_value(c));
            if i == from {
                assert(more.len() == 1);
            }
            assert(decimal_value(more) == Some(value as nat));
        }
        if value > u32::MAX as u64 {
            proof {
                assert(all.subrange(0, i as int + 1 - from as int) =~= more);
                lemma_prefix_value(all, i as int + 1 - from as int);
            }
            return None;
        }
        i = i + 1;
    }
    proof {
        assert(chars@.subrange(from as int, i as int) =~= all);
    }
    Some(value as u32)
}

/// The value of a run of digits is no less than the value of any run it
/// starts with.
pub proof fn lemma_prefix_value(s: Seq<char>, k: int)
    requires
        0 < k <= s.len(),
        decimal_value(s.subrange(0, k)) is Some,
    ensures
        decimal_value(s) matches Some(v) ==> decimal_value(s.subrange(0, k)).unwrap() <= v,
    decreases s.len() - k,
{
    if k < s.len() {
        if decimal_value(s) is Some {
            lemma_decimal_value_some(s);
            lemma_decimal_value_some(s.drop_last());
            assert(all_digits(s.drop_last())) by {
                assert forall|i: int| 0 <= i < s.drop_last().len() implies is_digit(
                    #[trigger] s.drop_last()[i],
                ) by {
                    assert(s.drop_last()[i] == s[i]);
                }
            }
            assert(s.drop_last().subrange(0, k) =~= s.subrange(0, k));
            lemma_prefix_value(s.drop_last(), k);
        }
    } else {
        assert(s.subrange(0, k) =~= s);
    }
}

/// Whether `part` stands in `text` at `at`.
pub open spec fn has_at(text: Seq<char>, at: int, part: Seq<char>) -> bool {
    0 <= at && at + part.len() <= text.len() && text.subrange(at, at + part.len()) == part
}

/// Whether the character `c` stands in `text` at `at`.
pub open spec fn char_at(text: Seq<char>, at: int, c: char) -> bool {
    0 <= at < text.len() && text[at] == c
}

/// The characters `from..end` are `part` exactly if `part` stands at
/// `from` and is as long as they are.
pub proof fn lemma_named(text: Seq<char>, from: int, end: int, part: Seq<char>)
    requires
        0 <= from <= end <= text.len(),
    ensures
        text.subrange(from, end) == part <==> end - from == part.len() && has_at(
            text,
            from,
            part,
        ),
{
    if text.subrange(from, end) == part {
        assert(text.subrange(from, from + part.len()) =~= part);
    }
}

/// Whether `part` stands in `chars` at `at`.
pub fn stands_at(chars: &Vec<char>, at: usize, part: &str) -> (yes: bool)
    ensures
        yes == has_at(chars@, at as int, part@),
{
    let n = part.unicode_len();
    if at > chars.len() || n > chars.len() - at {
        return false;
    }
    let mut k: usize = 0;
    while k < n
        invariant
            n == part@.len(),
            at + n <= chars.len(),
            k <= n,
            forall|j: int| 0 <= j < k ==> chars@[at + j] == part@[j],
        decreases n - k,
    {
        if chars[at + k] != part.get_char(k) {
            assert(chars@.subrange(at as int, at + n)[k as int] != part@[k as int]);
            return false;
        }
        k = k + 1;
    }
    assert(chars@.subrange(at as int, at + n) =~= part@);
    true
}

/// Whether the character `c` stands in `chars` at `at`.
pub fn is_at(chars: &Vec<char>, at: usize, c: char) -> (yes: bool)
    ensures
        yes == char_at(chars@, at as int, c),
{
    at < chars.len() && chars[at] == c
}

} // verus!
