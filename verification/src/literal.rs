//! The numerals of a `.cube` text: the edge size in the header, and the
//! channel values of a sample.
//!
//! A channel is kept as it was written. It is a decimal numeral with an
//! optional sign, optionally a fraction, optionally an exponent: `1`,
//! `-0.25`, `10.5`, `1.0e-05`, `2E+3`.

use vstd::prelude::*;
use vstd::string::*;

verus! {

/// Whether `c` is one of `0` to `9`.
pub open spec fn is_digit(c: char) -> bool {
    '0' <= c <= '9'
}

/// The number that the digit `c` stands for.
pub open spec fn digit_value(c: char) -> nat
    recommends
        is_digit(c),
{
    (c as u8 - 48) as nat
}

/// Whether `s` holds digits only.
pub open spec fn all_digits(s: Seq<char>) -> bool {
    forall|i: int| 0 <= i < s.len() ==> is_digit(#[trigger] s[i])
}

/// The number that the digits of `s` write in base ten.
pub open spec fn decimal_value(s: Seq<char>) -> nat
    decreases s.len(),
{
    if s.len() == 0 {
        0
    } else {
        10 * decimal_value(s.drop_last()) + digit_value(s.last())
    }
}

/// The edge size that `token` writes: `token` is one digit or more, and
/// its number is at least 1 and fits a `usize`.
pub open spec fn size_of_token(token: Seq<char>) -> Option<usize> {
    if token.len() > 0 && all_digits(token) && 1 <= decimal_value(token) <= usize::MAX {
        Some(decimal_value(token) as usize)
    } else {
        None
    }
}

/// Whether `c` is `+` or `-`.
pub open spec fn is_sign(c: char) -> bool {
    c == '+' || c == '-'
}

/// Whether `c` is `e` or `E`, which starts an exponent.
pub open spec fn is_exponent_mark(c: char) -> bool {
    c == 'e' || c == 'E'
}

/// The end of the digits of `s` that start at `from`: the first place from
/// `from` on that holds no digit.
pub open spec fn digits_end(s: Seq<char>, from: int) -> int
    decreases s.len() - from,
{
    if 0 <= from < s.len() && is_digit(s[from]) {
        digits_end(s, from + 1)
    } else {
        from
    }
}

/// Whether `s` is a channel numeral. Its parts, in this order and with
/// nothing else: an optional sign; one digit or more; optionally a point
/// and one digit or more; optionally `e` or `E`, an optional sign, and one
/// digit or more.
pub open spec fn is_channel_literal(s: Seq<char>) -> bool {
    let whole = if s.len() > 0 && is_sign(s[0]) {
        1int
    } else {
        0int
    };
    let point = digits_end(s, whole);
    let mark = if point < s.len() && s[point] == '.' {
        digits_end(s, point + 1)
    } else {
        point
    };
    let power = if mark < s.len() && is_exponent_mark(s[mark]) {
        if mark + 1 < s.len() && is_sign(s[mark + 1]) {
            mark + 2
        } else {
            mark + 1
        }
    } else {
        mark
    };
    let end = if power > mark {
        digits_end(s, power)
    } else {
        mark
    };
    &&& point > whole
    &&& mark != point + 1
    &&& power > mark ==> end > power
    &&& end == s.len()
}

/// From `from` up to `digits_end` there are digits only, and what follows
/// is no digit.
pub proof fn lemma_digits_end(s: Seq<char>, from: int)
    requires
        0 <= from <= s.len(),
    ensures
        from <= digits_end(s, from) <= s.len(),
        forall|i: int| from <= i < digits_end(s, from) ==> is_digit(#[trigger] s[i]),
        digits_end(s, from) < s.len() ==> !is_digit(s[digits_end(s, from)]),
    decreases s.len() - from,
{
    if from < s.len() && is_digit(s[from]) {
        lemma_digits_end(s, from + 1);
    }
}

/// A longer numeral is no smaller than the numeral it starts with.
pub proof fn lemma_decimal_value_grows(s: Seq<char>, n: int)
    requires
        0 <= n <= s.len(),
    ensures
        decimal_value(s.take(n)) <= decimal_value(s),
    decreases s.len(),
{
    if n == s.len() {
        assert(s.take(n) =~= s);
    } else {
        assert(s.drop_last().take(n) =~= s.take(n));
        lemma_decimal_value_grows(s.drop_last(), n);
    }
}

/// Whether the byte is one of `0` to `9`.
fn is_digit_byte(b: u8) -> (r: bool)
    ensures
        r == (48 <= b <= 57),
{
    48 <= b && b <= 57
}

/// The end of the digits that start at `start`. The bytes are those of the
/// ASCII text `s`.
fn skip_digits(bytes: &[u8], start: usize, Ghost(s): Ghost<Seq<char>>) -> (end: usize)
    requires
        start <= bytes@.len(),
        s.len() == bytes@.len(),
        forall|i: int| 0 <= i < s.len() ==> (is_digit(#[trigger] s[i]) <==> 48 <= bytes@[i] <= 57),
    ensures
        end == digits_end(s, start as int),
        start <= end <= bytes@.len(),
{
    let mut end = start;
    while end < bytes.len() && is_digit_byte(bytes[end])
        invariant
            start <= end <= bytes@.len(),
            s.len() == bytes@.len(),
            forall|i: int|
                0 <= i < s.len() ==> (is_digit(#[trigger] s[i]) <==> 48 <= bytes@[i] <= 57),
            digits_end(s, start as int) == digits_end(s, end as int),
        decreases bytes@.len() - end,
    {
        end += 1;
    }
    end
}

/// Whether the byte is `+` or `-`.
fn is_sign_byte(b: u8) -> (r: bool)
    ensures
        r == (b == 43 || b == 45),
{
    b == 43 || b == 45
}

/// Reads the edge size that `token` writes.
///
/// The result is `None` where `token` is empty, holds anything but the
/// digits `0` to `9`, or writes zero or a number beyond `usize`.
pub fn parse_size(token: &str) -> (size: Option<usize>)
    ensures
        size == size_of_token(token@),
{
    if !token.is_ascii() {
        assert(!all_digits(token@)) by {
            if all_digits(token@) {
                assert forall|i: int| 0 <= i < token@.len() implies '\0' <= #[trigger] token@[i]
                    <= '\u{7f}' by {
                    assert(is_digit(token@[i]));
                }
            }
        }
        return None;
    }
    let bytes = token.as_bytes();
    proof {
        is_ascii_spec_bytes(token);
    }
    if bytes.len() == 0 {
        return None;
    }
    let mut value: usize = 0;
    let mut i: usize = 0;
    while i < bytes.len()
        invariant
            0 <= i <= bytes@.len(),
            bytes@.len() == token@.len(),
            forall|j: int|
                0 <= j < bytes@.len() ==> bytes@[j] == #[trigger] token@[j] as u8 && '\0'
                    <= token@[j] <= '\u{7f}',
            all_digits(token@.take(i as int)),
            value == decimal_value(token@.take(i as int)),
        decreases bytes@.len() - i,
    {
        let b = bytes[i];
        let ghost next = token@.take(i + 1);
        assert(next.drop_last() =~= token@.take(i as int));
        assert(next.last() == token@[i as int]);
        if !is_digit_byte(b) {
            assert(!is_digit(token@[i as int]));
            return None;
        }
        assert(is_digit(token@[i as int]));
        assert(all_digits(next)) by {
            assert forall|j: int| 0 <= j < next.len() implies is_digit(#[trigger] next[j]) by {
                if j < i {
                    assert(token@.take(i as int)[j] == next[j]);
                }
            }
        }
        let grown = match value.checked_mul(10) {
            Some(tens) => tens.checked_add((b - 48) as usize),
            None => None,
        };
        match grown {
            Some(v) => {
                value = v;
            },
            None => {
                proof {
                    assert(decimal_value(next) > usize::MAX);
                    lemma_decimal_value_grows(token@, i + 1);
                }
                return None;
            },
        }
        i += 1;
    }
    assert(token@.take(i as int) =~= token@);
    if value == 0 {
        None
    } else {
        Some(value)
    }
}

/// Whether `token` is a channel numeral.
pub fn is_channel_token(token: &str) -> (r: bool)
    ensures
        r == is_channel_literal(token@),
{
    if !token.is_ascii() {
        proof {
            lemma_literal_is_ascii(token@);
        }
        return false;
    }
    let bytes = token.as_bytes();
    proof {
        is_ascii_spec_bytes(token);
    }
    let ghost s = token@;
    let n = bytes.len();
    assert forall|i: int| 0 <= i < n implies (is_digit(#[trigger] s[i]) <==> 48 <= bytes@[i] <= 57)
        && (s[i] == '.' <==> bytes@[i] == 46) && (is_exponent_mark(s[i]) <==> bytes@[i] == 101
        || bytes@[i] == 69) && (is_sign(s[i]) <==> bytes@[i] == 43 || bytes@[i] == 45) by {
        assert(bytes@[i] == s[i] as u8);
        assert('\0' <= s[i] <= '\u{7f}');
    }
    let whole: usize = if n > 0 && is_sign_byte(bytes[0]) {
        1
    } else {
        0
    };
    let point = skip_digits(bytes, whole, Ghost(s));
    if point == whole {
        return false;
    }
    let mark = if point < n && bytes[point] == 46 {
        skip_digits(bytes, point + 1, Ghost(s))
    } else {
        point
    };
    if mark > point && mark - point == 1 {
        return false;
    }
    if mark == n {
        return true;
    }
    if bytes[mark] != 101 && bytes[mark] != 69 {
        return false;
    }
    let power = if mark + 1 < n && is_sign_byte(bytes[mark + 1]) {
        mark + 2
    } else {
        mark + 1
    };
    let end = skip_digits(bytes, power, Ghost(s));
    end > power && end == n
}

/// A channel numeral holds ASCII characters only.
proof fn lemma_literal_is_ascii(s: Seq<char>)
    ensures
        is_channel_literal(s) ==> forall|i: int|
            0 <= i < s.len() ==> '\0' <= #[trigger] s[i] <= '\u{7f}',
{
    if is_channel_literal(s) {
        let whole = if s.len() > 0 && is_sign(s[0]) {
            1int
        } else {
            0int
        };
        lemma_digits_end(s, whole);
        let point = digits_end(s, whole);
        let mark = if point < s.len() && s[point] == '.' {
            lemma_digits_end(s, point + 1);
            digits_end(s, point + 1)
        } else {
            point
        };
        let power = if mark < s.len() && is_exponent_mark(s[mark]) {
            if mark + 1 < s.len() && is_sign(s[mark + 1]) {
                mark + 2
            } else {
                mark + 1
            }
        } else {
            mark
        };
        if power > mark {
            lemma_digits_end(s, power);
        }
        assert forall|i: int| 0 <= i < s.len() implies '\0' <= #[trigger] s[i] <= '\u{7f}' by {
            if i < whole {
                assert(is_sign(s[i]));
            } else if i < point {
                assert(is_digit(s[i]));
            } else if i < mark {
                if i > point {
                    assert(is_digit(s[i]));
                }
            } else if i < power {
                assert(is_exponent_mark(s[i]) || is_sign(s[i]));
            } else {
                assert(is_digit(s[i]));
            }
        }
    }
}

} // verus!
