//! What the number formats guarantee.

use vstd::prelude::*;

use crate::model::{NumberFormat, UsdAmount};
use crate::number;
use crate::text;

verus! {

/// Counted from the right, every fourth character of a grouped number is a separator, and no other.
pub proof fn law_separators_stand_every_three_digits(digits: Seq<char>)
    requires
        digits.len() > 0,
        text::all_digits(digits),
    ensures
        ({
            let shown = number::grouped(digits);
            &&& shown.len() == digits.len() + (digits.len() - 1) / 3
            &&& forall|place: int|
                0 <= place < shown.len() ==> (#[trigger] from_right(shown, place) == ',' <==> place
                    % 4 == 3)
        }),
    decreases digits.len(),
{
    let shown = number::grouped(digits);
    if digits.len() <= 3 {
        assert forall|place: int| 0 <= place < shown.len() implies (#[trigger] from_right(
            shown,
            place,
        ) == ',' <==> place % 4 == 3) by {
            assert(text::is_digit(digits[digits.len() - 1 - place]));
        }
    } else {
        let head = digits.take(digits.len() - 3);
        let tail = digits.skip(digits.len() - 3);
        assert forall|i: int| 0 <= i < head.len() implies text::is_digit(#[trigger] head[i]) by {
            assert(head[i] == digits[i]);
        }
        law_separators_stand_every_three_digits(head);
        let front = number::grouped(head);
        assert forall|place: int| 0 <= place < shown.len() implies (#[trigger] from_right(
            shown,
            place,
        ) == ',' <==> place % 4 == 3) by {
            if place < 3 {
                assert(from_right(shown, place) == tail[2 - place]);
                assert(text::is_digit(digits[digits.len() - 1 - place]));
            } else if place > 3 {
                assert(from_right(shown, place) == from_right(front, place - 4));
            }
        }
    }
}

/// The character at a place, counted from the right.
pub open spec fn from_right(s: Seq<char>, place: int) -> char {
    s[s.len() - 1 - place]
}

/// A dollar amount shows a dollar sign, the whole dollars, a point and two digits of cents.
pub proof fn law_currency_reads_back(amount: UsdAmount)
    ensures
        ({
            let shown = number::currency_text(amount);
            let n = shown.len() as int;
            &&& n >= 5
            &&& shown[0] == '$'
            &&& shown[n - 3] == '.'
            &&& text::all_digits(shown.subrange(1, n - 3))
            &&& text::all_digits(shown.skip(n - 2))
            &&& text::digits_value(shown.subrange(1, n - 3)) * 100 + text::digits_value(
                shown.skip(n - 2),
            ) == amount.cents
        }),
{
    let shown = number::currency_text(amount);
    let n = shown.len() as int;
    let dollars = text::decimal((amount.cents / 100) as nat);
    number::lemma_decimal_value((amount.cents / 100) as nat);
    assert(shown.subrange(1, n - 3) =~= dollars);
    let tens = text::digit_char((amount.cents / 10 % 10) as int);
    let ones = text::digit_char((amount.cents % 10) as int);
    assert(shown.skip(n - 2) =~= seq![tens, ones]);
    let cents = seq![tens, ones];
    assert(cents.drop_last() =~= seq![tens]);
    assert(seq![tens].drop_last() =~= Seq::<char>::empty());
    assert(text::digits_value(Seq::<char>::empty()) == 0);
    assert(text::digits_value(seq![tens]) == amount.cents / 10 % 10);
    assert(text::digits_value(cents) == (amount.cents / 10 % 10) * 10 + amount.cents % 10);
}

/// In full a count shows all its digits; in short one below a thousand does, and a greater one ends
/// in the letter of its unit.
pub proof fn law_counts_are_shown_in_full_or_short(value: u64)
    ensures
        number::count_text(value as nat, NumberFormat::Full).filter(|c: char| c != ',')
            == text::decimal(value as nat),
        value < 1000 ==> number::count_text(value as nat, NumberFormat::Short) == text::decimal(
            value as nat,
        ),
        value >= 1000 ==> {
            let last = number::count_text(value as nat, NumberFormat::Short).last();
            let unit = number::shown_unit(value as nat);
            last == if unit == 0 {
                'K'
            } else if unit == 1 {
                'M'
            } else if unit == 2 {
                'B'
            } else {
                'T'
            }
        },
{
    number::law_grouping_keeps_digits(value);
    reveal_strlit("K");
    reveal_strlit("M");
    reveal_strlit("B");
    reveal_strlit("T");
}

/// What the letter behind an abbreviated count stands for.
pub open spec fn letter_weight(letter: char) -> nat {
    if letter == 'K' {
        1_000
    } else if letter == 'M' {
        1_000_000
    } else if letter == 'B' {
        1_000_000_000
    } else if letter == 'T' {
        1_000_000_000_000
    } else {
        0
    }
}

/// An abbreviated count reads back: its figure, taken as often as its letter says, is within one
/// two-hundredth of the count.
pub proof fn law_short_counts_read_back(value: u64)
    requires
        value >= 1000,
    ensures
        ({
            let shown = number::count_text(value as nat, NumberFormat::Short);
            let figure = shown.drop_last();
            let worth = number::figure_digits(figure) * (letter_weight(shown.last())
                / number::pow10(number::figure_places(figure)));
            &&& letter_weight(shown.last()) > 0
            &&& 200 * (worth - value) <= value
            &&& 200 * (value - worth) <= value
        }),
{
    reveal_strlit("K");
    reveal_strlit("M");
    reveal_strlit("B");
    reveal_strlit("T");
    let v = value as nat;
    number::law_short_text_stands_for_shown_value(value);
    number::law_short_is_close(value);
    let unit = number::shown_unit(v);
    let figure = number::fixed_text(
        number::rounded_units(v, unit),
        number::shown_decimals(v, unit),
    );
    assert(number::short_text(v).drop_last() =~= figure);
    assert(letter_weight(number::short_text(v).last()) == number::unit_divisor(unit));
}

} // verus!
