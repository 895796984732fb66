use vstd::prelude::*;

use crate::equation::grammar::is_digit;

verus! {

/// The value of a decimal digit character.
pub open spec fn digit_value(c: char) -> int {
    (c as int) - ('0' as int)
}

/// The value of a run of decimal digits.
pub open spec fn digits_value(d: Seq<char>) -> int
    decreases d.len(),
{
    if d.len() == 0 {
        0
    } else {
        digits_value(d.drop_last()) * 10 + digit_value(d.last())
    }
}

/// Text made of an optional `+` or `-` followed by at least one decimal digit.
pub open spec fn is_signed_integer(t: Seq<char>) -> bool {
    let start: int = if t.len() > 0 && (t[0] == '+' || t[0] == '-') {
        1
    } else {
        0
    };
    start < t.len() && forall|i: int| start <= i < t.len() ==> is_digit(#[trigger] t[i])
}

/// The digits of a signed integer's text, without its sign.
pub open spec fn unsigned_part(t: Seq<char>) -> Seq<char> {
    if t.len() > 0 && (t[0] == '+' || t[0] == '-') {
        t.skip(1)
    } else {
        t
    }
}

/// The value of a signed integer's text.
pub open spec fn signed_value(t: Seq<char>) -> int {
    if t.len() > 0 && t[0] == '-' {
        -digits_value(unsigned_part(t))
    } else {
        digits_value(unsigned_part(t))
    }
}

proof fn lemma_digits_value_nonneg(d: Seq<char>)
    requires
        forall|i: int| 0 <= i < d.len() ==> is_digit(#[trigger] d[i]),
    ensures
        digits_value(d) >= 0,
    decreases d.len(),
{
    if d.len() > 0 {
        let init = d.drop_last();
        assert forall|i: int| 0 <= i < init.len() implies is_digit(#[trigger] init[i]) by {
            assert(init[i] == d[i]);
        }
        lemma_digits_value_nonneg(init);
    }
}

proof fn lemma_digits_value_grows(d: Seq<char>)
    requires
        forall|i: int| 0 <= i < d.len() ==> is_digit(#[trigger] d[i]),
        d.len() > 0,
    ensures
        digits_value(d) >= digits_value(d.drop_last()) * 10,
{
    assert(is_digit(d[d.len() - 1]));
}

/// The value of the exponent text of a monomial, such as `-2`: `None` when its
/// digits, read without the sign, exceed `i32::MAX`.
pub fn signed_integer_value(text: &[char]) -> (r: Option<i32>)
    requires
        is_signed_integer(text@),
    ensures
        digits_value(unsigned_part(text@)) <= i32::MAX ==> r == Some(signed_value(text@) as i32),
        digits_value(unsigned_part(text@)) > i32::MAX ==> r is None,
{
    let negative = text[0] == '-';
    let start: usize = if text[0] == '+' || text[0] == '-' {
        1
    } else {
        0
    };
    let ghost digits = unsigned_part(text@);
    assert(digits =~= text@.skip(start as int));
    let mut value: i32 = 0;
    let mut i = start;
    let mut overflow = false;
    while i < text.len()
        invariant
            start <= i <= text.len(),
            digits =~= text@.skip(start as int),
            forall|j: int| start <= j < text.len() ==> is_digit(#[trigger] text@[j]),
            !overflow ==> value == digits_value(text@.subrange(start as int, i as int)),
            overflow ==> digits_value(text@.subrange(start as int, i as int)) > i32::MAX,
            value >= 0,
        decreases text.len() - i,
    {
        let ghost prefix = text@.subrange(start as int, i as int);
        let ghost next = text@.subrange(start as int, i as int + 1);
        assert(next.drop_last() =~= prefix);
        assert(next.last() == text@[i as int]);
        assert forall|j: int| 0 <= j < next.len() implies is_digit(#[trigger] next[j]) by {
            assert(next[j] == text@[start + j]);
        }
        assert forall|j: int| 0 <= j < prefix.len() implies is_digit(#[trigger] prefix[j]) by {
            assert(prefix[j] == text@[start + j]);
        }
        proof {
            lemma_digits_value_nonneg(prefix);
        }
        let d = text[i];
        assert(is_digit(d));
        let dv = (d as u32 - '0' as u32) as i32;
        if overflow {
            proof {
                lemma_digits_value_grows(next);
            }
        } else {
            if value > (i32::MAX - dv) / 10 {
                overflow = true;
                assert(digits_value(next) == value * 10 + dv);
            } else {
                value = value * 10 + dv;
            }
        }
        i = i + 1;
    }
    assert(text@.subrange(start as int, text.len() as int) =~= digits);
    if overflow {
        None
    } else if negative {
        Some(-value)
    } else {
        Some(value)
    }
}

} // verus!
