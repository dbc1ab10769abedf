//! The text of the heads-up display: the score and the speed multiplier.
use vstd::prelude::*;
use crate::game::{Score, Speed};

verus! {

/// The character of a decimal digit.
pub open spec fn digit_char(d: int) -> char {
    if d == 0 {
        '0'
    } else if d == 1 {
        '1'
    } else if d == 2 {
        '2'
    } else if d == 3 {
        '3'
    } else if d == 4 {
        '4'
    } else if d == 5 {
        '5'
    } else if d == 6 {
        '6'
    } else if d == 7 {
        '7'
    } else if d == 8 {
        '8'
    } else {
        '9'
    }
}

/// The decimal notation of a natural number, without leading zeros.
pub open spec fn decimal(n: nat) -> Seq<char>
    decreases n,
{
    if n < 10 {
        seq![digit_char(n as int)]
    } else {
        decimal(n / 10).push(digit_char((n % 10) as int))
    }
}

/// The number that a string of decimal digits denotes, most significant
/// digit first; a digit `c` counts `c - '0'`, whose code is 48.
pub open spec fn digits_value(s: Seq<char>) -> int
    decreases s.len(),
{
    if s.len() == 0 {
        0
    } else {
        digits_value(s.drop_last()) * 10 + (s.last() as int - 48)
    }
}

/// Every character is one of `'0'..='9'` (codes 48 to 57).
pub open spec fn all_digits(s: Seq<char>) -> bool {
    forall|i: int| 0 <= i < s.len() ==> 48 <= #[trigger] (s[i] as int) <= 57
}

/// The character of digit `d` is the ASCII digit `'0' + d`.
pub proof fn lemma_digit_char_is_ascii_digit(d: int)
    requires
        0 <= d < 10,
    ensures
        digit_char(d) as int == 48 + d,
{
}

/// The decimal notation of `n` is a non-empty string of digits, without a
/// leading zero unless it is `0`, that reads back as `n`.
pub proof fn lemma_decimal_reads_back(n: nat)
    ensures
        decimal(n).len() >= 1,
        all_digits(decimal(n)),
        digits_value(decimal(n)) == n,
        n > 0 ==> decimal(n)[0] != '0',
    decreases n,
{
    if n < 10 {
        lemma_digit_char_is_ascii_digit(n as int);
        let s = decimal(n);
        assert(s.drop_last() =~= Seq::<char>::empty());
        assert(digits_value(s) == digits_value(s.drop_last()) * 10 + (s.last() as int - 48));
    } else {
        lemma_decimal_reads_back(n / 10);
        lemma_digit_char_is_ascii_digit((n % 10) as int);
        let s = decimal(n);
        assert(s.drop_last() =~= decimal(n / 10));
        assert(s[0] == decimal(n / 10)[0]);
        assert(digits_value(s) == digits_value(s.drop_last()) * 10 + (s.last() as int - 48));
        assert((n / 10) * 10 + n % 10 == n);
    }
}

/// Two digits read back as the number they denote.
pub proof fn lemma_two_digits_read_back(a: int, b: int)
    requires
        0 <= a < 10,
        0 <= b < 10,
    ensures
        all_digits(seq![digit_char(a), digit_char(b)]),
        digits_value(seq![digit_char(a), digit_char(b)]) == 10 * a + b,
{
    lemma_digit_char_is_ascii_digit(a);
    lemma_digit_char_is_ascii_digit(b);
    let s = seq![digit_char(a), digit_char(b)];
    let t = seq![digit_char(a)];
    assert(s.drop_last() =~= t);
    assert(t.drop_last() =~= Seq::<char>::empty());
    assert(digits_value(t) == digits_value(t.drop_last()) * 10 + (t.last() as int - 48));
    assert(digits_value(s) == digits_value(s.drop_last()) * 10 + (s.last() as int - 48));
}

/// `Score: <score>`.
pub open spec fn score_line(score: nat) -> Seq<char> {
    seq!['S', 'c', 'o', 'r', 'e', ':', ' '] + decimal(score)
}

/// `Speed: <multiplier>x`, the multiplier with two decimals.
pub open spec fn speed_line(hundredths: nat) -> Seq<char> {
    seq!['S', 'p', 'e', 'e', 'd', ':', ' '] + decimal(hundredths / 100) + seq![
        '.',
        digit_char(((hundredths / 10) % 10) as int),
        digit_char((hundredths % 10) as int),
        'x',
    ]
}

/// The score line is `Score: ` followed by digits that read back as the
/// score.
pub proof fn lemma_score_line_reads_back(score: nat)
    ensures
        score_line(score).len() >= 8,
        score_line(score).subrange(0, 7) == seq!['S', 'c', 'o', 'r', 'e', ':', ' '],
        all_digits(score_line(score).subrange(7, score_line(score).len() as int)),
        digits_value(score_line(score).subrange(7, score_line(score).len() as int)) == score,
        score > 0 ==> score_line(score)[7] != '0',
{
    lemma_decimal_reads_back(score);
    let s = score_line(score);
    assert(s.subrange(0, 7) =~= seq!['S', 'c', 'o', 'r', 'e', ':', ' ']);
    assert(s.subrange(7, s.len() as int) =~= decimal(score));
    assert(s[7] == decimal(score)[0]);
}

/// The speed line is `Speed: `, the whole part of the multiplier, a point,
/// two digits and `x`; the whole part reads back as `hundredths / 100`, the
/// two digits as `hundredths % 100`, so dropping the point gives
/// `hundredths` itself.
pub proof fn lemma_speed_line_reads_back(hundredths: nat)
    ensures
        ({
            let s = speed_line(hundredths);
            &&& s.len() >= 12
            &&& s.subrange(0, 7) == seq!['S', 'p', 'e', 'e', 'd', ':', ' ']
            &&& s[s.len() - 4] == '.'
            &&& s[s.len() - 1] == 'x'
            &&& all_digits(s.subrange(7, s.len() - 4))
            &&& all_digits(s.subrange(s.len() - 3, s.len() - 1))
            &&& digits_value(s.subrange(7, s.len() - 4)) == hundredths / 100
            &&& digits_value(s.subrange(s.len() - 3, s.len() - 1)) == hundredths % 100
            &&& digits_value(s.subrange(7, s.len() - 4)) * 100 + digits_value(
                s.subrange(s.len() - 3, s.len() - 1),
            ) == hundredths
        }),
{
    let h = hundredths;
    let whole = h / 100;
    let a = ((h / 10) % 10) as int;
    let b = (h % 10) as int;
    lemma_decimal_reads_back(whole);
    lemma_two_digits_read_back(a, b);
    let s = speed_line(h);
    let k = decimal(whole).len();
    assert(s.len() == 7 + k + 4);
    assert(s.subrange(0, 7) =~= seq!['S', 'p', 'e', 'e', 'd', ':', ' ']);
    assert(s.subrange(7, s.len() - 4) =~= decimal(whole));
    assert(s.subrange(s.len() - 3, s.len() - 1) =~= seq![digit_char(a), digit_char(b)]);
    assert(10 * a + b == h % 100) by (nonlinear_arith)
        requires
            a == (h / 10) % 10,
            b == h % 10,
            h >= 0,
    ;
    assert(whole * 100 + h % 100 == h) by (nonlinear_arith)
        requires
            whole == h / 100,
            h >= 0,
    ;
}

/// The one-character string of a decimal digit.
fn digit_str(d: u64) -> (s: &'static str)
    requires
        d < 10,
    ensures
        s@ == seq![digit_char(d as int)],
{
    if d == 0 {
        proof {
            reveal_strlit("0");
        }
        "0"
    } else if d == 1 {
        proof {
            reveal_strlit("1");
        }
        "1"
    } else if d == 2 {
        proof {
            reveal_strlit("2");
        }
        "2"
    } else if d == 3 {
        proof {
            reveal_strlit("3");
        }
        "3"
    } else if d == 4 {
        proof {
            reveal_strlit("4");
        }
        "4"
    } else if d == 5 {
        proof {
            reveal_strlit("5");
        }
        "5"
    } else if d == 6 {
        proof {
            reveal_strlit("6");
        }
        "6"
    } else if d == 7 {
        proof {
            reveal_strlit("7");
        }
        "7"
    } else if d == 8 {
        proof {
            reveal_strlit("8");
        }
        "8"
    } else {
        proof {
            reveal_strlit("9");
        }
        "9"
    }
}

/// Appends the decimal notation of `n`.
fn push_decimal(s: &mut String, n: u64)
    ensures
        final(s)@ == old(s)@ + decimal(n as nat),
    decreases n,
{
    if n >= 10 {
        push_decimal(s, n / 10);
    }
    s.append(digit_str(n % 10));
    assert(final(s)@ =~= old(s)@ + decimal(n as nat)) by {
        if n >= 10 {
            assert(decimal(n as nat) == decimal((n / 10) as nat).push(digit_char((n % 10) as int)));
        }
    }
}

/// The score line of the HUD, e.g. `Score: 12`.
pub fn score_text(score: &Score) -> (text: String)
    ensures
        text@ == score_line(score.0 as nat),
        text@.len() >= 8,
        text@.subrange(0, 7) == seq!['S', 'c', 'o', 'r', 'e', ':', ' '],
        all_digits(text@.subrange(7, text@.len() as int)),
        digits_value(text@.subrange(7, text@.len() as int)) == score.0,
        score.0 > 0 ==> text@[7] != '0',
{
    proof {
        lemma_score_line_reads_back(score.0 as nat);
    }
    let mut text = "Score: ".to_owned();
    proof {
        reveal_strlit("Score: ");
    }
    push_decimal(&mut text, score.0 as u64);
    assert(text@ =~= score_line(score.0 as nat));
    text
}

/// The speed line of the HUD, e.g. `Speed: 1.05x`.
pub fn speed_text(speed: &Speed) -> (text: String)
    ensures
        text@ == speed_line(speed.hundredths as nat),
        text@.len() >= 12,
        text@.subrange(0, 7) == seq!['S', 'p', 'e', 'e', 'd', ':', ' '],
        text@[text@.len() - 4] == '.',
        text@[text@.len() - 1] == 'x',
        all_digits(text@.subrange(7, text@.len() - 4)),
        all_digits(text@.subrange(text@.len() - 3, text@.len() - 1)),
        digits_value(text@.subrange(7, text@.len() - 4)) == speed.hundredths / 100,
        digits_value(text@.subrange(text@.len() - 3, text@.len() - 1)) == speed.hundredths % 100,
{
    proof {
        lemma_speed_line_reads_back(speed.hundredths as nat);
    }
    let h = speed.hundredths;
    let mut text = "Speed: ".to_owned();
    proof {
        reveal_strlit("Speed: ");
        reveal_strlit(".");
        reveal_strlit("x");
    }
    push_decimal(&mut text, h / 100);
    text.append(".");
    text.append(digit_str((h / 10) % 10));
    text.append(digit_str(h % 10));
    text.append("x");
    assert(text@ =~= speed_line(h as nat));
    text
}

} // verus!
