//! Decimal text of whole numbers.

use vstd::prelude::*;
use vstd::string::StringExecFns;

verus! {

/// The character of the decimal digit `d`.
pub open spec fn digit(d: int) -> char {
    if d == 0 {
        '0'
    } else if d == 1 {
        '1'
    } else if d == 2 {
        '2'
    } else if d == 3 {
        '3'
    } else if d == 4 {
        '4'
    } else if d == 5 {
        '5'
    } else if d == 6 {
        '6'
    } else if d == 7 {
        '7'
    } else if d == 8 {
        '8'
    } else {
        '9'
    }
}

/// The decimal digits of `n`, without leading zeros.
pub open spec fn decimal(n: nat) -> Seq<char>
    decreases n,
{
    if n < 10 {
        seq![digit(n as int)]
    } else {
        decimal(n / 10).push(digit((n % 10) as int))
    }
}

/// The decimal text of `n`, with a minus sign before a negative number.
pub open spec fn integer_text(n: int) -> Seq<char> {
    if n < 0 {
        seq!['-'] + decimal((-n) as nat)
    } else {
        decimal(n as nat)
    }
}

/// The text of one decimal digit.
fn digit_text(d: u32) -> (s: &'static str)
    requires
        d < 10,
    ensures
        s@ == seq![digit(d as int)],
{
    proof {
        reveal_strlit("0");
        reveal_strlit("1");
        reveal_strlit("2");
        reveal_strlit("3");
        reveal_strlit("4");
        reveal_strlit("5");
        reveal_strlit("6");
        reveal_strlit("7");
        reveal_strlit("8");
        reveal_strlit("9");
    }
    let s = if d == 0 {
        "0"
    } else if d == 1 {
        "1"
    } else if d == 2 {
        "2"
    } else if d == 3 {
        "3"
    } else if d == 4 {
        "4"
    } else if d == 5 {
        "5"
    } else if d == 6 {
        "6"
    } else if d == 7 {
        "7"
    } else if d == 8 {
        "8"
    } else {
        "9"
    };
    assert(s@ =~= seq![digit(d as int)]);
    s
}

/// Appends the decimal digits of `n` to `text`.
pub fn push_decimal(text: &mut String, n: u32)
    ensures
        final(text)@ == old(text)@ + decimal(n as nat),
    decreases n,
{
    if n >= 10 {
        push_decimal(text, n / 10);
    }
    text.append(digit_text(n % 10));
    assert(final(text)@ =~= old(text)@ + decimal(n as nat));
}

/// Appends the decimal text of `n` to `text`.
pub fn push_integer(text: &mut String, n: i32)
    ensures
        final(text)@ == old(text)@ + integer_text(n as int),
{
    if n < 0 {
        proof {
            reveal_strlit("-");
        }
        text.append("-");
        let m: u32 = (-(n as i64)) as u32;
        push_decimal(text, m);
        assert(final(text)@ =~= old(text)@ + integer_text(n as int));
    } else {
        push_decimal(text, n as u32);
    }
}

/// The number of tenths nearest to `magnitude / 2^32`; of two that are
/// equally near, the even one.
pub open spec fn nearest_tenths(magnitude: nat) -> nat {
    let scaled = magnitude * 10;
    let below = scaled / 0x1_0000_0000;
    let rest = scaled % 0x1_0000_0000;
    if rest > 0x8000_0000 || (rest == 0x8000_0000 && below % 2 == 1) {
        below + 1
    } else {
        below
    }
}

/// The text with one decimal place of the fixed-point number whose raw
/// value, in units of `1 / 2^32`, is `raw`: a minus sign for a negative raw
/// value, the whole part, a point, and the tenth.
pub open spec fn one_decimal(raw: int) -> Seq<char> {
    let tenths = nearest_tenths((if raw < 0 {
        -raw
    } else {
        raw
    }) as nat);
    let digits = decimal(tenths / 10) + seq!['.', digit((tenths % 10) as int)];
    if raw < 0 {
        seq!['-'] + digits
    } else {
        digits
    }
}

/// Appends to `text` the text with one decimal place of the fixed-point
/// number whose raw value is `raw`.
pub fn push_one_decimal(text: &mut String, raw: i64)
    ensures
        final(text)@ == old(text)@ + one_decimal(raw as int),
{
    let magnitude: u128 = if raw < 0 {
        (-(raw as i128)) as u128
    } else {
        raw as u128
    };
    let scaled: u128 = magnitude * 10;
    let below: u128 = scaled / 0x1_0000_0000;
    let rest: u128 = scaled % 0x1_0000_0000;
    let tenths: u128 = if rest > 0x8000_0000 || (rest == 0x8000_0000 && below % 2 == 1) {
        below + 1
    } else {
        below
    };
    assert(tenths == nearest_tenths(magnitude as nat));
    proof {
        reveal_strlit("-");
        reveal_strlit(".");
    }
    if raw < 0 {
        text.append("-");
    }
    push_decimal(text, (tenths / 10) as u32);
    text.append(".");
    text.append(digit_text((tenths % 10) as u32));
    assert(final(text)@ =~= old(text)@ + one_decimal(raw as int));
}

/// The number of line feeds in `text`.
pub open spec fn line_feeds(text: Seq<char>) -> nat
    decreases text.len(),
{
    if text.len() == 0 {
        0
    } else {
        line_feeds(text.drop_last()) + if text.last() == '\n' {
            1nat
        } else {
            0nat
        }
    }
}

/// The line feeds of two texts joined are those of the one and of the other.
pub proof fn lemma_line_feeds_joined(first: Seq<char>, second: Seq<char>)
    ensures
        line_feeds(first + second) == line_feeds(first) + line_feeds(second),
    decreases second.len(),
{
    if second.len() == 0 {
        assert(first + second =~= first);
    } else {
        lemma_line_feeds_joined(first, second.drop_last());
        assert((first + second).drop_last() =~= first + second.drop_last());
        assert((first + second).last() == second.last());
    }
}

/// A text of one character has a line feed exactly when it is one.
pub proof fn lemma_line_feeds_single(c: char)
    ensures
        line_feeds(seq![c]) == if c == '\n' {
            1nat
        } else {
            0nat
        },
{
    assert(seq![c].drop_last() =~= Seq::<char>::empty());
    assert(seq![c].last() == c);
    assert(line_feeds(Seq::<char>::empty()) == 0);
}

/// Decimal digits hold no line feed.
pub proof fn lemma_decimal_on_one_line(n: nat)
    ensures
        line_feeds(decimal(n)) == 0,
    decreases n,
{
    if n < 10 {
        lemma_line_feeds_single(digit(n as int));
    } else {
        lemma_decimal_on_one_line(n / 10);
        assert(decimal(n).drop_last() =~= decimal(n / 10));
        assert(decimal(n).last() == digit((n % 10) as int));
    }
}

/// The text of a whole number holds no line feed.
pub proof fn lemma_integer_text_on_one_line(n: int)
    ensures
        line_feeds(integer_text(n)) == 0,
{
    if n < 0 {
        lemma_decimal_on_one_line((-n) as nat);
        lemma_line_feeds_single('-');
        lemma_line_feeds_joined(seq!['-'], decimal((-n) as nat));
    } else {
        lemma_decimal_on_one_line(n as nat);
    }
}

} // verus!
