use vstd::prelude::*;
use crate::text::string_of;

verus! {

/// The character that writes the decimal digit `d`.
pub open spec fn digit_char(d: nat) -> char {
    if d == 0 {
        '0'
    } else if d == 1 {
        '1'
    } else if d == 2 {
        '2'
    } else if d == 3 {
        '3'
    } else if d == 4 {
        '4'
    } else if d == 5 {
        '5'
    } else if d == 6 {
        '6'
    } else if d == 7 {
        '7'
    } else if d == 8 {
        '8'
    } else {
        '9'
    }
}

/// The base-10 representation of `n`, most significant digit first and
/// without leading zeros; zero is written as the single digit `0`.
pub open spec fn decimal(n: nat) -> Seq<char>
    decreases n,
{
    if n < 10 {
        seq![digit_char(n)]
    } else {
        decimal(n / 10).push(digit_char(n % 10))
    }
}

/// Ten to the power `e`.
pub open spec fn pow10(e: nat) -> nat
    decreases e,
{
    if e == 0 {
        1
    } else {
        10 * pow10((e - 1) as nat)
    }
}

/// `decimal(n)`, preceded by as many copies of `pad` as it takes to reach
/// `width` characters. A number that is already that wide is left as it is.
pub open spec fn padded(n: nat, pad: char, width: nat) -> Seq<char> {
    let text = decimal(n);
    if text.len() < width {
        Seq::new((width - text.len()) as nat, |i: int| pad) + text
    } else {
        text
    }
}

/// A representation has at least one digit, and a positive number with `k`
/// digits lies between the two powers of ten that bound the `k`-digit numbers.
pub proof fn lemma_decimal_len(n: nat)
    ensures
        decimal(n).len() >= 1,
        n == 0 ==> decimal(n).len() == 1,
        n > 0 ==> pow10((decimal(n).len() - 1) as nat) <= n < pow10(decimal(n).len()),
    decreases n,
{
    if n >= 10 {
        lemma_decimal_len(n / 10);
        let k = decimal(n / 10).len();
        assert(decimal(n).len() == k + 1);
        assert(pow10(k) == 10 * pow10((k - 1) as nat));
        assert(pow10(k + 1) == 10 * pow10(k));
    } else {
        assert(pow10(1) == 10 * pow10(0));
    }
}

/// The representation never begins with the digit zero, except for zero itself.
pub proof fn lemma_decimal_no_leading_zero(n: nat)
    ensures
        n > 0 ==> decimal(n)[0] != '0',
    decreases n,
{
    if n >= 10 {
        lemma_decimal_no_leading_zero(n / 10);
        lemma_decimal_len(n / 10);
    }
}

/// A padded number is never shorter than asked for and never loses a digit.
pub proof fn lemma_padded_len(n: nat, pad: char, width: nat)
    ensures
        padded(n, pad, width).len() == if decimal(n).len() < width {
            width
        } else {
            decimal(n).len()
        },
        padded(n, pad, width).subrange(
            padded(n, pad, width).len() - decimal(n).len(),
            padded(n, pad, width).len() as int,
        ) == decimal(n),
        forall|i: int|
            0 <= i < padded(n, pad, width).len() - decimal(n).len() ==> padded(n, pad, width)[i]
                == pad,
{
}

/// The character of a single decimal digit.
fn digit_to_char(d: u8) -> (c: char)
    requires
        d < 10,
    ensures
        c == digit_char(d as nat),
{
    match d {
        0 => '0',
        1 => '1',
        2 => '2',
        3 => '3',
        4 => '4',
        5 => '5',
        6 => '6',
        7 => '7',
        8 => '8',
        _ => '9',
    }
}

/// Appends the decimal representation of `n` to `out`.
pub fn push_decimal(out: &mut Vec<char>, n: usize)
    ensures
        final(out)@ == old(out)@ + decimal(n as nat),
    decreases n,
{
    if n >= 10 {
        push_decimal(out, n / 10);
    }
    out.push(digit_to_char((n % 10) as u8));
}

/// Appends the decimal representation of `n` to `out`, preceded by copies of
/// `pad` while it has fewer than `width` characters.
pub fn push_padded(out: &mut Vec<char>, n: usize, pad: char, width: usize)
    ensures
        final(out)@ == old(out)@ + padded(n as nat, pad, width as nat),
{
    let ghost before = out@;
    let count: usize = n.digits();
    if count < width {
        let fill: usize = width - count;
        let mut i: usize = 0;
        while i < fill
            invariant
                i <= fill,
                out@ == before + Seq::new(i as nat, |k: int| pad),
            decreases fill - i,
        {
            out.push(pad);
            i += 1;
        }
    }
    let ghost filled = out@;
    push_decimal(out, n);
    assert(out@ == before + padded(n as nat, pad, width as nat));
}

/// Numbers that know how many decimal digits they have and can write
/// themselves padded to a minimum width.
pub trait Digits {
    /// The number as a mathematical natural.
    spec fn number(&self) -> nat;

    /// Counts the digits of the base-10 representation: 1 for 0 to 9, 2 for
    /// 10 to 99, and so on.
    fn digits(&self) -> (count: usize)
        ensures
            count == decimal(self.number()).len(),
    ;

    /// Writes the number in base 10, preceded by copies of `pad` while it has
    /// fewer than `limit` characters. The number is never cut short.
    fn to_padded_string(&self, pad: char, limit: usize) -> (text: String)
        ensures
            text@ == padded(self.number(), pad, limit as nat),
    ;
}

impl Digits for usize {
    open spec fn number(&self) -> nat {
        *self as nat
    }

    fn digits(&self) -> (count: usize) {
        let mut count: usize = 1;
        let mut rest: usize = *self;
        while rest >= 10
            invariant
                count >= 1,
                count + rest <= *self + 1,
                decimal(*self as nat).len() == (count - 1) + decimal(rest as nat).len(),
            decreases rest,
        {
            rest = rest / 10;
            count = count + 1;
        }
        count
    }

    fn to_padded_string(&self, pad: char, limit: usize) -> (text: String) {
        let mut out: Vec<char> = Vec::new();
        push_padded(&mut out, *self, pad, limit);
        string_of(&out)
    }
}

} // verus!
