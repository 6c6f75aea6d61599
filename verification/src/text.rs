//! Searching text for a delimiter, and reading and writing decimal numbers.

use vstd::prelude::*;
use vstd::string::{StrSliceExecFns, StringExecFns};

verus! {

/// The position of the first `mark` in `text`, or the length of `text` if
/// there is none.
pub open spec fn first_of(text: Seq<char>, mark: char) -> int
    decreases text.len(),
{
    if text.len() == 0 {
        0
    } else if text[0] == mark {
        0
    } else {
        1 + first_of(text.drop_first(), mark)
    }
}

/// The position of the last `mark` in `text`, or -1 if there is none.
pub open spec fn last_of(text: Seq<char>, mark: char) -> int
    decreases text.len(),
{
    if text.len() == 0 {
        -1
    } else if text.last() == mark {
        text.len() - 1
    } else {
        last_of(text.drop_last(), mark)
    }
}

/// Whether `c` is one of the ten decimal digits.
pub open spec fn is_digit(c: char) -> bool {
    '0' as u32 <= c as u32 <= '9' as u32
}

/// The number that the digits of `digits` write in decimal.
pub open spec fn decimal_value(digits: Seq<char>) -> nat
    decreases digits.len(),
{
    if digits.len() == 0 {
        0
    } else {
        decimal_value(digits.drop_last()) * 10 + (digits.last() as u32 - '0' as u32) as nat
    }
}

/// Whether `text` is made of decimal digits only.
pub open spec fn all_digits(text: Seq<char>) -> bool {
    forall|i: int| 0 <= i < text.len() ==> is_digit(#[trigger] text[i])
}

/// The number that `text` writes: an optional plus sign, then one decimal
/// digit or more, no larger in all than a `u32` can hold. Any other text
/// writes no number.
pub open spec fn number_of(text: Seq<char>) -> Option<u32> {
    let digits = if text.len() > 0 && text[0] == '+' { text.drop_first() } else { text };
    if digits.len() > 0 && all_digits(digits) && decimal_value(digits) <= u32::MAX {
        Some(decimal_value(digits) as u32)
    } else {
        None
    }
}

/// The decimal digits of `n`, without leading zeros; one zero for zero.
pub open spec fn decimal_of(n: nat) -> Seq<char>
    decreases n,
{
    if n < 10 {
        seq![digit_of(n)]
    } else {
        decimal_of(n / 10).push(digit_of(n % 10))
    }
}

/// The digit that writes `d`, for `d` below ten.
pub open spec fn digit_of(d: nat) -> char {
    if d == 0 {
        '0'
    } else if d == 1 {
        '1'
    } else if d == 2 {
        '2'
    } else if d == 3 {
        '3'
    } else if d == 4 {
        '4'
    } else if d == 5 {
        '5'
    } else if d == 6 {
        '6'
    } else if d == 7 {
        '7'
    } else if d == 8 {
        '8'
    } else {
        '9'
    }
}

/// The first `mark` stands where no `mark` stands before it.
pub proof fn lemma_first_of(text: Seq<char>, mark: char, at: int)
    requires
        0 <= at <= text.len(),
        forall|i: int| 0 <= i < at ==> text[i] != mark,
        at < text.len() ==> text[at] == mark,
    ensures
        first_of(text, mark) == at,
    decreases at,
{
    if at > 0 {
        lemma_first_of(text.drop_first(), mark, at - 1);
    }
}

/// The last `mark` stands where no `mark` stands behind it.
pub proof fn lemma_last_of(text: Seq<char>, mark: char, at: int)
    requires
        -1 <= at < text.len(),
        forall|i: int| at < i < text.len() ==> text[i] != mark,
        at >= 0 ==> text[at] == mark,
    ensures
        last_of(text, mark) == at,
    decreases text.len(),
{
    if text.len() > 0 && at < text.len() - 1 {
        lemma_last_of(text.drop_last(), mark, at);
    }
}

/// The position of the first `mark` in `text`, or the length of `text` in
/// characters if there is none.
pub fn find_first(text: &str, mark: char) -> (at: usize)
    ensures
        at == first_of(text@, mark),
        at <= text@.len(),
{
    let len = text.unicode_len();
    let mut at: usize = 0;
    while at < len
        invariant
            at <= len,
            len == text@.len(),
            forall|i: int| 0 <= i < at ==> text@[i] != mark,
        decreases len - at,
    {
        if text.get_char(at) == mark {
            proof {
                lemma_first_of(text@, mark, at as int);
            }
            return at;
        }
        at += 1;
    }
    proof {
        lemma_first_of(text@, mark, at as int);
    }
    at
}

/// The position of the last `mark` in `text`, if there is one.
pub fn find_last(text: &str, mark: char) -> (at: Option<usize>)
    ensures
        match at {
            Some(at) => at == last_of(text@, mark) && at < text@.len(),
            None => last_of(text@, mark) == -1,
        },
{
    let len = text.unicode_len();
    let mut at: usize = len;
    while at > 0
        invariant
            at <= len,
            len == text@.len(),
            forall|i: int| at <= i < len ==> text@[i] != mark,
        decreases at,
    {
        at -= 1;
        if text.get_char(at) == mark {
            proof {
                lemma_last_of(text@, mark, at as int);
            }
            return Some(at);
        }
    }
    proof {
        lemma_last_of(text@, mark, -1);
    }
    None
}

proof fn lemma_decimal_value_grows(digits: Seq<char>, k: int)
    requires
        0 <= k <= digits.len(),
        all_digits(digits),
    ensures
        decimal_value(digits.take(k)) <= decimal_value(digits),
    decreases digits.len() - k,
{
    if k < digits.len() {
        lemma_decimal_value_grows(digits, k + 1);
        let longer = digits.take(k + 1);
        assert(longer.drop_last() =~= digits.take(k));
        assert(is_digit(digits[k]));
        assert(longer.last() == digits[k]);
    } else {
        assert(digits.take(k) =~= digits);
    }
}

/// Reads the number that `text` writes, if it writes one.
pub fn parse_number(text: &str) -> (number: Option<u32>)
    ensures
        number == number_of(text@),
{
    let len = text.unicode_len();
    let start: usize = if len > 0 && text.get_char(0) == '+' { 1 } else { 0 };
    let ghost digits = if text@.len() > 0 && text@[0] == '+' { text@.drop_first() } else { text@ };
    if start == len {
        return None;
    }
    let mut value: u64 = 0;
    let mut at: usize = start;
    proof {
        assert(digits.take(0) =~= Seq::<char>::empty());
    }
    while at < len
        invariant
            start <= at <= len,
            len == text@.len(),
            digits == (if text@.len() > 0 && text@[0] == '+' { text@.drop_first() } else { text@ }),
            digits.len() == len - start,
            forall|i: int| 0 <= i < digits.len() ==> digits[i] == text@[start + i],
            all_digits(digits.take(at - start)),
            value == decimal_value(digits.take(at - start)),
            value <= u32::MAX,
        decreases len - at,
    {
        let c = text.get_char(at);
        let code: u32 = c as u32;
        let ghost seen = digits.take(at - start + 1);
        proof {
            assert(seen.drop_last() =~= digits.take(at - start));
            assert(seen.last() == c);
            assert(digits[at - start] == c);
        }
        if code < 48 || code > 57 {
            proof {
                assert(!is_digit(digits[at - start]));
            }
            return None;
        }
        value = value * 10 + (code - 48) as u64;
        proof {
            assert(value == decimal_value(seen));
            assert forall|i: int| 0 <= i < seen.len() implies is_digit(#[trigger] seen[i]) by {
                if i < seen.len() - 1 {
                    assert(seen[i] == digits.take(at - start)[i]);
                }
            }
        }
        if value > 0xffff_ffff {
            proof {
                if all_digits(digits) {
                    lemma_decimal_value_grows(digits, at - start + 1);
                }
            }
            return None;
        }
        at += 1;
    }
    proof {
        assert(digits.take(at - start) =~= digits);
    }
    Some(value as u32)
}

/// Writes `n` in decimal at the end of `out`.
pub fn push_number(out: &mut String, n: u32)
    ensures
        final(out)@ == old(out)@ + decimal_of(n as nat),
    decreases n,
{
    if n >= 10 {
        push_number(out, n / 10);
    }
    let digit: &str = match n % 10 {
        0 => "0",
        1 => "1",
        2 => "2",
        3 => "3",
        4 => "4",
        5 => "5",
        6 => "6",
        7 => "7",
        8 => "8",
        _ => "9",
    };
    proof {
        reveal_strlit("0");
        reveal_strlit("1");
        reveal_strlit("2");
        reveal_strlit("3");
        reveal_strlit("4");
        reveal_strlit("5");
        reveal_strlit("6");
        reveal_strlit("7");
        reveal_strlit("8");
        reveal_strlit("9");
        assert(digit@ =~= seq![digit_of((n % 10) as nat)]);
        if n >= 10 {
            assert((old(out)@ + decimal_of((n / 10) as nat)) + digit@ =~= old(out)@ + decimal_of(n as nat));
        } else {
            assert(old(out)@ + digit@ =~= old(out)@ + decimal_of(n as nat));
        }
    }
    out.append(digit);
}

} // verus!
