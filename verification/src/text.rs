//! Decimal text.

use vstd::prelude::*;

verus! {

/// The character of a decimal digit.
pub open spec fn digit(d: nat) -> char {
    (48 + d) as char
}

/// A number in decimal, without leading zeros.
pub open spec fn decimal(n: nat) -> Seq<char>
    decreases n,
{
    if n < 10 {
        seq![digit(n)]
    } else {
        decimal(n / 10).push(digit(n % 10))
    }
}

/// A run of zeros.
pub open spec fn zeros(count: int) -> Seq<char> {
    Seq::new(
        if count > 0 {
            count as nat
        } else {
            0
        },
        |i: int| '0',
    )
}

/// A number in decimal, with leading zeros up to `width` characters.
pub open spec fn padded(n: nat, width: nat) -> Seq<char> {
    zeros(width - decimal(n).len()) + decimal(n)
}

/// A signed number in decimal, with leading zeros behind the sign up to `width`
/// characters, the sign counted in.
pub open spec fn padded_signed(n: int, width: nat) -> Seq<char>
    recommends
        width > 0,
{
    if n < 0 {
        seq!['-'] + padded((-n) as nat, (width - 1) as nat)
    } else {
        padded(n as nat, width)
    }
}

/// The text of a decimal digit.
fn digit_text(d: u32) -> (text: &'static str)
    requires
        d < 10,
    ensures
        text@ == seq![digit(d as nat)],
{
    proof {
        reveal_strlit("0");
        reveal_strlit("1");
        reveal_strlit("2");
        reveal_strlit("3");
        reveal_strlit("4");
        reveal_strlit("5");
        reveal_strlit("6");
        reveal_strlit("7");
        reveal_strlit("8");
        reveal_strlit("9");
    }
    if d == 0 {
        "0"
    } else if d == 1 {
        "1"
    } else if d == 2 {
        "2"
    } else if d == 3 {
        "3"
    } else if d == 4 {
        "4"
    } else if d == 5 {
        "5"
    } else if d == 6 {
        "6"
    } else if d == 7 {
        "7"
    } else if d == 8 {
        "8"
    } else {
        "9"
    }
}

/// Writes a number in decimal.
pub(crate) fn decimal_text(n: u128) -> (text: String)
    ensures
        text@ == decimal(n as nat),
    decreases n,
{
    let last: &'static str = digit_text((n % 10) as u32);
    if n < 10 {
        last.to_owned()
    } else {
        let head = decimal_text(n / 10);
        head.concat(last)
    }
}

/// Appends a number in decimal, with leading zeros up to `width` characters.
pub(crate) fn push_padded(text: &mut String, n: u64, width: usize)
    ensures
        final(text)@ == old(text)@ + padded(n as nat, width as nat),
{
    let digits = decimal_text(n as u128);
    let len: usize = digits.as_str().unicode_len();
    let mut written: usize = len;
    while written < width
        invariant
            len == decimal(n as nat).len(),
            written >= len,
            written <= width || written == len,
            text@ == old(text)@ + zeros(written - len),
        decreases width - written,
    {
        proof {
            reveal_strlit("0");
        }
        text.append("0");
        assert(zeros(written + 1 - len) =~= zeros(written - len).push('0'));
        written = written + 1;
    }
    text.append(digits.as_str());
    assert(text@ =~= old(text)@ + padded(n as nat, width as nat));
}

/// Two texts in one.
pub(crate) fn joined(first: &str, second: &str) -> (text: String)
    ensures
        text@ == first@ + second@,
{
    first.to_owned().concat(second)
}

/// The number that a run of characters reads as in decimal.
pub open spec fn number(text: Seq<char>) -> int
    decreases text.len(),
{
    if text.len() == 0 {
        0
    } else {
        10 * number(text.drop_last()) + (text.last() as int - '0' as int)
    }
}

/// Whether every character is a decimal digit.
pub open spec fn all_digits(text: Seq<char>) -> bool {
    forall|i: int| 0 <= i < text.len() ==> '0' <= #[trigger] text[i] <= '9'
}

/// A number in decimal reads as itself and has no leading zero, so that different
/// numbers have different texts.
pub proof fn law_decimal_reads_back(n: nat)
    ensures
        number(decimal(n)) == n,
        all_digits(decimal(n)),
        decimal(n).len() > 0,
        n > 0 ==> decimal(n)[0] != '0',
    decreases n,
{
    let text = decimal(n);
    if n < 10 {
        assert(text.drop_last() =~= Seq::empty());
        assert(number(Seq::empty()) == 0);
    } else {
        law_decimal_reads_back(n / 10);
        assert(text.drop_last() =~= decimal(n / 10));
        assert(text[0] == decimal(n / 10)[0]);
    }
}

/// Leading zeros do not change what a number reads as, and bring it to its width.
pub proof fn law_padding_reads_back(n: nat, width: nat)
    ensures
        number(padded(n, width)) == n,
        all_digits(padded(n, width)),
        padded(n, width).len() == (if decimal(n).len() < width {
            width
        } else {
            decimal(n).len()
        }),
{
    law_decimal_reads_back(n);
    lemma_leading_zeros(width - decimal(n).len(), decimal(n));
}

proof fn lemma_leading_zeros(count: int, text: Seq<char>)
    ensures
        number(zeros(count) + text) == number(text),
    decreases text.len(), count,
{
    let whole = zeros(count) + text;
    if text.len() > 0 {
        lemma_leading_zeros(count, text.drop_last());
        assert(whole.drop_last() =~= zeros(count) + text.drop_last());
    } else if count > 0 {
        lemma_leading_zeros(count - 1, text);
        assert(whole.drop_last() =~= zeros(count - 1) + text);
        assert(whole.last() == '0');
    } else {
        assert(whole =~= text);
    }
}

} // verus!
