use vstd::prelude::*;
use crate::digits::{decimal, lemma_decimal_len};
use crate::paths::{file_name, file_name_of};
use crate::text::{chars_of, code, code_of, lowercase_of, remove_all, same_text, without};

verus! {

/// Whether `c` is one of the digits `0` to `9`.
pub open spec fn is_digit(c: char) -> bool {
    48 <= code(c) <= 57
}

/// The number that the digit `c` stands for.
pub open spec fn digit_value(c: char) -> nat {
    (code(c) - 48) as nat
}

/// Whether `text` is made of digits only.
pub open spec fn all_digits(text: Seq<char>) -> bool {
    forall|i: int| 0 <= i < text.len() ==> is_digit(#[trigger] text[i])
}

/// The number that a row of digits writes in base 10.
pub open spec fn digits_value(text: Seq<char>) -> nat
    decreases text.len(),
{
    if text.len() == 0 {
        0
    } else {
        digits_value(text.drop_last()) * 10 + digit_value(text.last())
    }
}

/// The number that `text` writes: at least one digit, with nothing before
/// the digits but, if at all, a single `+`, and nothing behind them.
pub open spec fn parsed_number(text: Seq<char>) -> Option<nat> {
    let digits = if text.len() > 0 && text[0] == '+' {
        text.drop_first()
    } else {
        text
    };
    if digits.len() > 0 && all_digits(digits) {
        Some(digits_value(digits))
    } else {
        None
    }
}

/// The season number that a directory name gives, once the name is in
/// lowercase. The names `season0`, `season 0` and `specials` give 0. Any other
/// name gives the number that is left when every `season` and then every
/// space is taken out of it, if what is left is a number up to 255.
pub open spec fn season_number(lowercase_name: Seq<char>) -> Option<u8> {
    if lowercase_name == "season0"@ || lowercase_name == "season 0"@ || lowercase_name
        == "specials"@ {
        Some(0u8)
    } else {
        match parsed_number(without(without(lowercase_name, "season"@), " "@)) {
            Some(number) => if number <= 255 {
                Some(number as u8)
            } else {
                None
            },
            None => None,
        }
    }
}

/// The season number that the path of a directory gives: the one that its
/// final component gives without regard to case, and none where the path has
/// no final component.
pub open spec fn derived_season(path: Seq<char>) -> Option<u8> {
    match file_name_of(path) {
        Some(name) => season_number(lowercase_of(name)),
        None => None,
    }
}

/// What a number is written as is read as that number.
pub proof fn lemma_parsed_decimal(n: nat)
    ensures
        parsed_number(decimal(n)) == Some(n),
{
    lemma_decimal_digits(n);
    lemma_decimal_len(n);
}

/// The representation of a number is made of digits, and they write it.
proof fn lemma_decimal_digits(n: nat)
    ensures
        all_digits(decimal(n)),
        digits_value(decimal(n)) == n,
        decimal(n).len() > 0,
        decimal(n)[0] != '+',
    decreases n,
{
    if n >= 10 {
        lemma_decimal_digits(n / 10);
        let head = decimal(n / 10);
        let text = decimal(n);
        assert(text.drop_last() == head);
        assert(text[0] == head[0]);
        assert forall|i: int| 0 <= i < text.len() implies is_digit(#[trigger] text[i]) by {
            if i < head.len() {
                assert(text[i] == head[i]);
            }
        }
    } else {
        assert(decimal(n).drop_last() == Seq::<char>::empty());
        assert(digits_value(decimal(n).drop_last()) == 0);
    }
}

/// A longer row of digits never writes a smaller number than the row it
/// begins with.
proof fn lemma_digits_value_grows(text: Seq<char>, upto: int)
    requires
        0 <= upto <= text.len(),
    ensures
        digits_value(text.take(upto)) <= digits_value(text),
    decreases text.len() - upto,
{
    if upto < text.len() {
        lemma_digits_value_grows(text.drop_last(), upto);
        assert(text.drop_last().take(upto) == text.take(upto));
    } else {
        assert(text.take(upto) == text);
    }
}

/// The number that `text` writes, if it writes one that is no greater than
/// `limit`.
pub open spec fn parsed_within(text: Seq<char>, limit: nat) -> Option<nat> {
    match parsed_number(text) {
        Some(value) => if value <= limit {
            Some(value)
        } else {
            None
        },
        None => None,
    }
}

/// Reads the number that `text` writes, if it writes one that is no greater
/// than `limit`.
pub fn parse_within(text: &Vec<char>, limit: u32) -> (number: Option<u32>)
    ensures
        match number {
            Some(value) => parsed_within(text@, limit as nat) == Some(value as nat),
            None => parsed_within(text@, limit as nat) is None,
        },
{
    let start: usize = if text.len() > 0 && text[0] == '+' {
        1
    } else {
        0
    };
    let ghost digits = text@.skip(start as int);
    proof {
        if start == 0 {
            assert(digits == text@);
        } else {
            assert(digits == text@.drop_first());
        }
    }
    if start >= text.len() {
        return None;
    }
    assert(parsed_number(text@) == if all_digits(digits) {
        Some(digits_value(digits))
    } else {
        None
    });
    let mut value: u64 = 0;
    let mut at: usize = start;
    while at < text.len()
        invariant
            start <= at <= text.len(),
            digits == text@.skip(start as int),
            parsed_number(text@) == if all_digits(digits) {
                Some(digits_value(digits))
            } else {
                None
            },
            all_digits(digits.take(at - start)),
            value == digits_value(digits.take(at - start)),
            value <= limit,
        decreases text.len() - at,
    {
        let point: u32 = code_of(text[at]);
        assert(text@[at as int] == digits[at - start]);
        if point < 48 || point > 57 {
            assert(!all_digits(digits)) by {
                assert(!is_digit(digits[at - start]));
            }
            return None;
        }
        let ghost head = digits.take(at - start);
        let ghost next = digits.take(at - start + 1);
        assert(next.drop_last() == head);
        assert(next.last() == digits[at - start]);
        assert(all_digits(next)) by {
            assert forall|i: int| 0 <= i < next.len() implies is_digit(#[trigger] next[i]) by {
                if i < head.len() {
                    assert(next[i] == head[i]);
                }
            }
        }
        value = value * 10 + (point - 48) as u64;
        if value > limit as u64 {
            proof {
                lemma_digits_value_grows(digits, at - start + 1);
            }
            return None;
        }
        at += 1;
    }
    assert(digits.take(at - start) == digits);
    Some(value as u32)
}

/// Reads the number that `text` writes, if it is one up to 255.
pub fn parse_number(text: &Vec<char>) -> (number: Option<u8>)
    ensures
        number == match parsed_number(text@) {
            Some(value) => if value <= 255 {
                Some(value as u8)
            } else {
                None
            },
            None => None,
        },
{
    match parse_within(text, 255) {
        Some(value) => Some(value as u8),
        None => None,
    }
}

/// Derives the season number from the name of a directory that is already in
/// lowercase.
pub fn season_number_of(lowercase_name: &str) -> (number: Option<u8>)
    ensures
        number == season_number(lowercase_name@),
{
    let name = chars_of(lowercase_name);
    if same_text(&name, "season0") || same_text(&name, "season 0") || same_text(
        &name,
        "specials",
    ) {
        Some(0)
    } else {
        let word = chars_of("season");
        let space = chars_of(" ");
        let bare = remove_all(&remove_all(&name, &word), &space);
        parse_number(&bare)
    }
}

/// Given the path of a directory, derives the number of the season that the
/// directory holds from its name, without regard to case. A path without a
/// final component, or with a name that gives no number, has none.
pub fn derive_season_number(season: &str) -> (number: Option<u8>)
    ensures
        number == derived_season(season@),
{
    match file_name(season) {
        Some(name) => {
            let lower = name.as_str().to_lowercase();
            season_number_of(lower.as_str())
        },
        None => None,
    }
}

} // verus!
