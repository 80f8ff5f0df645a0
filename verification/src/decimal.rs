use vstd::prelude::*;
use vstd::string::StringExecFns;

verus! {

/// Whether `c` is one of the ten ASCII digits.
pub open spec fn is_digit(c: char) -> bool {
    '0' <= c && c <= '9'
}

/// The number that the digit `c` stands for.
pub open spec fn digit_value(c: char) -> int {
    c as u32 as int - 48
}

/// The character of the digit `d`.
pub open spec fn digit_char(d: int) -> char {
    if d == 0 {
        '0'
    } else if d == 1 {
        '1'
    } else if d == 2 {
        '2'
    } else if d == 3 {
        '3'
    } else if d == 4 {
        '4'
    } else if d == 5 {
        '5'
    } else if d == 6 {
        '6'
    } else if d == 7 {
        '7'
    } else if d == 8 {
        '8'
    } else {
        '9'
    }
}

pub open spec fn all_digits(text: Seq<char>) -> bool {
    forall|i: int| 0 <= i < text.len() ==> is_digit(#[trigger] text[i])
}

/// The number that a string of digits denotes in base ten.
pub open spec fn digits_value(text: Seq<char>) -> int
    decreases text.len(),
{
    if text.len() == 0 {
        0
    } else {
        digits_value(text.drop_last()) * 10 + digit_value(text.last())
    }
}

/// What a text denotes as a signed 32-bit number: an optional `+` or `-`,
/// then one digit or more, leading zeros allowed, the value within the range
/// of `i32`. Any other text denotes nothing.
pub open spec fn parsed_id(text: Seq<char>) -> Option<i32> {
    let negative = text.len() > 0 && text[0] == '-';
    let signed = negative || (text.len() > 0 && text[0] == '+');
    let body = if signed {
        text.skip(1)
    } else {
        text
    };
    let value = if negative {
        -digits_value(body)
    } else {
        digits_value(body)
    };
    if body.len() > 0 && all_digits(body) && i32::MIN <= value <= i32::MAX {
        Some(value as i32)
    } else {
        None
    }
}

/// The digits of `n` in base ten, without leading zeros.
pub open spec fn digits_of(n: nat) -> Seq<char>
    decreases n,
{
    if n < 10 {
        seq![digit_char(n as int)]
    } else {
        digits_of(n / 10).push(digit_char((n % 10) as int))
    }
}

/// How `v` is written in base ten: a `-` before a negative number, no sign
/// before another.
pub open spec fn decimal_text(v: int) -> Seq<char> {
    if v < 0 {
        seq!['-'] + digits_of((-v) as nat)
    } else {
        digits_of(v as nat)
    }
}

/// A number's digits denote the number.
pub proof fn lemma_digits_round_trip(n: nat)
    ensures
        digits_of(n).len() > 0,
        all_digits(digits_of(n)),
        digits_value(digits_of(n)) == n,
    decreases n,
{
    if n < 10 {
        let text = digits_of(n);
        assert(text.drop_last() =~= Seq::<char>::empty());
        assert(digits_value(text.drop_last()) == 0);
        assert(digits_value(text) == digits_value(text.drop_last()) * 10 + digit_value(
            text.last(),
        ));
    } else {
        lemma_digits_round_trip(n / 10);
        let text = digits_of(n);
        assert(text.drop_last() =~= digits_of(n / 10));
        assert(digits_value(text) == digits_value(text.drop_last()) * 10 + digit_value(
            text.last(),
        ));
    }
}

/// What is written for a 32-bit number reads back as that number.
pub proof fn lemma_decimal_round_trip(v: i32)
    ensures
        parsed_id(decimal_text(v as int)) == Some(v),
{
    let text = decimal_text(v as int);
    if v < 0 {
        let digits = digits_of((-v) as nat);
        lemma_digits_round_trip((-v) as nat);
        assert(text[0] == '-');
        assert(text.skip(1) =~= digits);
    } else {
        lemma_digits_round_trip(v as nat);
        assert(is_digit(text[0]));
    }
}

/// The text of one digit.
fn digit_str(d: u32) -> (r: &'static str)
    requires
        d < 10,
    ensures
        r@ == seq![digit_char(d as int)],
{
    proof {
        reveal_strlit("0");
        reveal_strlit("1");
        reveal_strlit("2");
        reveal_strlit("3");
        reveal_strlit("4");
        reveal_strlit("5");
        reveal_strlit("6");
        reveal_strlit("7");
        reveal_strlit("8");
        reveal_strlit("9");
    }
    let r = if d == 0 {
        "0"
    } else if d == 1 {
        "1"
    } else if d == 2 {
        "2"
    } else if d == 3 {
        "3"
    } else if d == 4 {
        "4"
    } else if d == 5 {
        "5"
    } else if d == 6 {
        "6"
    } else if d == 7 {
        "7"
    } else if d == 8 {
        "8"
    } else {
        "9"
    };
    assert(r@ =~= seq![digit_char(d as int)]);
    r
}

/// The characters of the digits in `digits`, last digit first.
spec fn emitted(digits: Seq<u32>) -> Seq<char>
    decreases digits.len(),
{
    if digits.len() == 0 {
        Seq::empty()
    } else {
        seq![digit_char(digits.last() as int)] + emitted(digits.drop_last())
    }
}

/// The digits of `n` where `n` is not zero, and nothing where it is.
spec fn leading_digits(n: nat) -> Seq<char> {
    if n == 0 {
        Seq::empty()
    } else {
        digits_of(n)
    }
}

/// Writes `v` in base ten at the end of `out`.
pub fn append_decimal(out: &mut String, v: i32)
    ensures
        final(out)@ == old(out)@ + decimal_text(v as int),
{
    let magnitude: u32 = if v < 0 {
        out.append("-");
        proof {
            reveal_strlit("-");
            assert("-"@ =~= seq!['-']);
        }
        (-(v as i64)) as u32
    } else {
        v as u32
    };
    let ghost start = out@;
    let mut digits: Vec<u32> = Vec::new();
    digits.push(magnitude % 10);
    let mut rest: u32 = magnitude / 10;
    proof {
        assert(digits@.drop_last() =~= Seq::<u32>::empty());
        assert(emitted(digits@.drop_last()) =~= Seq::<char>::empty());
        assert(emitted(digits@) =~= seq![digit_char((magnitude % 10) as int)]);
        assert(digits_of(magnitude as nat) =~= leading_digits(rest as nat) + emitted(digits@));
    }
    while rest > 0
        invariant
            digits@.len() > 0,
            forall|k: int| 0 <= k < digits@.len() ==> digits@[k] < 10,
            digits_of(magnitude as nat) == leading_digits(rest as nat) + emitted(digits@),
        decreases rest,
    {
        let ghost before = digits@;
        digits.push(rest % 10);
        proof {
            assert(digits@.drop_last() =~= before);
            assert(leading_digits(rest as nat) =~= leading_digits((rest / 10) as nat).push(
                digit_char((rest % 10) as int),
            ));
            assert(leading_digits(rest as nat) + emitted(before) =~= leading_digits(
                (rest / 10) as nat,
            ) + emitted(digits@));
        }
        rest = rest / 10;
    }
    let mut i: usize = digits.len();
    proof {
        assert(digits@.take(i as int) =~= digits@);
    }
    while i > 0
        invariant
            i <= digits@.len(),
            forall|k: int| 0 <= k < digits@.len() ==> digits@[k] < 10,
            out@ + emitted(digits@.take(i as int)) == start + emitted(digits@),
        decreases i,
    {
        let ghost written = out@;
        i -= 1;
        out.append(digit_str(digits[i]));
        proof {
            assert(digits@.take(i + 1).drop_last() =~= digits@.take(i as int));
            assert(out@ + emitted(digits@.take(i as int)) =~= written + emitted(
                digits@.take(i + 1),
            ));
        }
    }
    proof {
        assert(digits@.take(0) =~= Seq::<u32>::empty());
        assert(out@ =~= out@ + emitted(digits@.take(0)));
        assert(old(out)@ + decimal_text(v as int) =~= start + emitted(digits@));
    }
}

/// The largest magnitude that a 32-bit signed number can have.
pub const MAGNITUDE_LIMIT: i64 = 2147483648;

/// Reads `text` as a signed 32-bit number in base ten.
pub fn parse_id(text: &str) -> (r: Option<i32>)
    ensures
        r == parsed_id(text@),
{
    let n = text.unicode_len();
    if n == 0 {
        return None;
    }
    let first = text.get_char(0);
    let negative = first == '-';
    let start: usize = if first == '-' || first == '+' {
        1
    } else {
        0
    };
    let ghost body = if start == 1 {
        text@.skip(1)
    } else {
        text@
    };
    if start == n {
        return None;
    }
    let mut acc: i64 = 0;
    let mut too_big = false;
    let mut i: usize = start;
    proof {
        assert(body.take(0) =~= Seq::<char>::empty());
    }
    while i < n
        invariant
            start <= i <= n,
            n == text@.len(),
            first == text@[0],
            start == if first == '-' || first == '+' {
                1usize
            } else {
                0usize
            },
            body == if start == 1 {
                text@.skip(1)
            } else {
                text@
            },
            body.len() == n - start,
            forall|k: int| 0 <= k < body.len() ==> body[k] == text@[k + start],
            all_digits(body.take(i - start)),
            0 <= acc <= MAGNITUDE_LIMIT,
            !too_big ==> acc == digits_value(body.take(i - start)),
            too_big ==> digits_value(body.take(i - start)) > MAGNITUDE_LIMIT,
        decreases n - i,
    {
        let c = text.get_char(i);
        if !(c >= '0' && c <= '9') {
            assert(!is_digit(body[i - start]));
            assert(!all_digits(body));
            return None;
        }
        let d: i64 = (c as u32 - 48) as i64;
        proof {
            let seen = body.take(i - start);
            let next = body.take(i + 1 - start);
            assert(next.drop_last() =~= seen);
            assert(next.last() == c);
            assert(digits_value(next) == digits_value(seen) * 10 + digit_value(c));
            assert(all_digits(next)) by {
                assert forall|k: int| 0 <= k < next.len() implies is_digit(#[trigger] next[k]) by {
                    if k < seen.len() {
                        assert(next[k] == seen[k]);
                    }
                }
            }
        }
        if !too_big {
            acc = acc * 10 + d;
            if acc > MAGNITUDE_LIMIT {
                too_big = true;
                acc = MAGNITUDE_LIMIT;
            }
        }
        i += 1;
    }
    assert(body.take(n - start) =~= body);
    if too_big {
        return None;
    }
    let value: i64 = if negative {
        -acc
    } else {
        acc
    };
    if value < -2147483648 || value > 2147483647 {
        None
    } else {
        Some(value as i32)
    }
}

} // verus!
